//! The character grid: 2D glyph storage with a per-cell "used" flag.
//!
//! Out-of-range reads return a neutral space so that the finders' boundary
//! rules need no special-casing.  The used-mask is the only state the two
//! finder stages share.

use vstd::prelude::*;
use vstd::std_specs::iter::IteratorSpec;

verus! {

/// Cap on either grid dimension; rows and columns beyond it are dropped so
/// that every output coordinate stays far inside the fixed-point range.
pub const MAX_DIM: usize = 30000;

/// Index of the first newline in `s`, or `s.len()` if there is none.
pub open spec fn spec_first_nl(s: Seq<char>) -> nat
    decreases s.len(),
{
    if s.len() == 0 {
        0
    } else if s[0] == '\n' {
        0
    } else {
        1 + spec_first_nl(s.drop_first())
    }
}

/// `s` split at every newline; the separators are consumed.  The result
/// always holds at least one (possibly empty) line.
pub open spec fn spec_lines(s: Seq<char>) -> Seq<Seq<char>>
    decreases s.len(),
{
    let n = spec_first_nl(s);
    if n >= s.len() {
        seq![s]
    } else {
        seq![s.take(n as int)] + spec_lines(s.skip(n as int + 1))
    }
}

/// Length of the longest line.
pub open spec fn spec_max_len(ls: Seq<Seq<char>>) -> nat
    decreases ls.len(),
{
    if ls.len() == 0 {
        0
    } else {
        let m = spec_max_len(ls.drop_last());
        if ls.last().len() > m {
            ls.last().len()
        } else {
            m
        }
    }
}

pub proof fn lemma_first_nl_facts(s: Seq<char>)
    ensures
        spec_first_nl(s) <= s.len(),
        forall|j: int| 0 <= j < spec_first_nl(s) ==> s[j] != '\n',
        spec_first_nl(s) < s.len() ==> s[spec_first_nl(s) as int] == '\n',
    decreases s.len(),
{
    if s.len() > 0 && s[0] != '\n' {
        lemma_first_nl_facts(s.drop_first());
        assert forall|j: int| 0 <= j < spec_first_nl(s) implies s[j] != '\n' by {
            if j > 0 {
                assert(s.drop_first()[j - 1] == s[j]);
            }
        }
        if spec_first_nl(s) < s.len() {
            assert(s.drop_first()[spec_first_nl(s.drop_first()) as int] == '\n');
        }
    }
}

pub proof fn lemma_first_nl_val(s: Seq<char>, n: int)
    requires
        0 <= n <= s.len(),
        forall|j: int| 0 <= j < n ==> s[j] != '\n',
        n < s.len() ==> s[n] == '\n',
    ensures
        spec_first_nl(s) == n,
    decreases s.len(),
{
    if n == 0 {
    } else {
        assert(s[0] != '\n');
        assert(forall|j: int| 0 <= j < s.drop_first().len() ==> s.drop_first()[j] == s[j + 1]);
        lemma_first_nl_val(s.drop_first(), n - 1);
    }
}

/// How appending one character extends the line split.
pub proof fn lemma_lines_push(s: Seq<char>, c: char)
    ensures
        spec_lines(s).len() >= 1,
        c == '\n' ==> spec_lines(s.push(c)) == spec_lines(s).push(Seq::<char>::empty()),
        c != '\n' ==> spec_lines(s.push(c)) == spec_lines(s).update(
            spec_lines(s).len() - 1,
            spec_lines(s).last().push(c),
        ),
    decreases s.len(),
{
    let n = spec_first_nl(s) as int;
    lemma_first_nl_facts(s);
    let t = s.push(c);
    if n < s.len() {
        assert(forall|j: int| 0 <= j < n ==> t[j] != '\n');
        assert(t[n] == '\n');
        lemma_first_nl_val(t, n);
        assert(t.skip(n + 1) =~= s.skip(n + 1).push(c));
        assert(t.take(n) =~= s.take(n));
        lemma_lines_push(s.skip(n + 1), c);
        let ls = spec_lines(s.skip(n + 1));
        assert(spec_lines(s) == seq![s.take(n)] + ls);
        if c == '\n' {
            assert(spec_lines(t) =~~= (seq![s.take(n)] + ls).push(Seq::<char>::empty()));
        } else {
            assert((seq![s.take(n)] + ls).last() == ls.last());
            assert(spec_lines(t) =~~= (seq![s.take(n)] + ls).update(
                (seq![s.take(n)] + ls).len() - 1,
                ls.last().push(c),
            ));
        }
    } else {
        assert(spec_lines(s) == seq![s]);
        if c == '\n' {
            assert(forall|j: int| 0 <= j < s.len() ==> t[j] != '\n');
            assert(t[s.len() as int] == '\n');
            lemma_first_nl_val(t, s.len() as int);
            assert(t.take(s.len() as int) =~= s);
            assert(t.skip(s.len() as int + 1) =~= Seq::<char>::empty());
            assert(spec_first_nl(Seq::<char>::empty()) == 0);
            assert(spec_lines(Seq::<char>::empty()) == seq![Seq::<char>::empty()]);
            assert(spec_lines(t) =~~= seq![s].push(Seq::<char>::empty()));
        } else {
            assert(forall|j: int| 0 <= j < t.len() ==> t[j] != '\n');
            lemma_first_nl_val(t, t.len() as int);
            assert(spec_lines(t) == seq![t]);
            assert(seq![s].update(0, s.push(c)) =~~= seq![t]);
        }
    }
}

/// The characters of `s`, in order.
pub fn text_chars(s: &str) -> (v: Vec<char>)
    ensures
        v@ == s@,
{
    broadcast use vstd::string::axiom_spec_iter, vstd::string::next_postcondition;

    let mut it = s.chars();
    let mut v: Vec<char> = Vec::new();
    loop
        invariant_except_break
            it.obeys_prophetic_iter_laws(),
            v@ + IteratorSpec::remaining(&it) == s@,
        ensures
            v@ == s@,
        decreases s@.len() - v@.len(),
    {
        match it.next() {
            Some(c) => {
                v.push(c);
                proof {
                    assert(v@ + IteratorSpec::remaining(&it) =~= s@);
                }
            },
            None => {
                proof {
                    assert(v@ =~= s@);
                }
                break ;
            },
        }
    }
    v
}

/// 2D character storage plus the per-cell used flag.
///
/// The fields are public so that specifications can speak about them; use
/// the methods to read and mutate.
pub struct Grid {
    /// Number of columns.
    pub width: usize,
    /// Number of rows.
    pub height: usize,
    /// The glyphs, one padded row per line of input.
    pub rows: Vec<Vec<char>>,
    /// Row-major used flags, `width * height` of them.
    pub used: Vec<bool>,
}

impl Grid {
    /// Structural well-formedness: padded rectangular storage within the
    /// dimension caps.
    pub open spec fn wf(self) -> bool {
        &&& self.width <= MAX_DIM
        &&& self.height <= MAX_DIM
        &&& self.rows@.len() == self.height
        &&& forall|y: int| 0 <= y < self.height ==> self.rows@[y]@.len() == self.width
        &&& self.used@.len() == self.width * self.height
    }

    pub open spec fn in_range(self, x: int, y: int) -> bool {
        0 <= x < self.width && 0 <= y < self.height
    }

    /// The glyph at `(x, y)`, or a space outside the grid.
    pub open spec fn char_at(self, x: int, y: int) -> char {
        if self.in_range(x, y) {
            self.rows@[y]@[x]
        } else {
            ' '
        }
    }

    /// The used flag at `(x, y)`; cells outside the grid are never used.
    pub open spec fn used_at(self, x: int, y: int) -> bool {
        if self.in_range(x, y) {
            self.used@[y * self.width + x]
        } else {
            false
        }
    }

    /// Both grids hold the same glyphs in the same dimensions (the used
    /// flags may differ).
    pub open spec fn same_cells(self, other: Grid) -> bool {
        &&& other.width == self.width
        &&& other.height == self.height
        &&& other.rows@ == self.rows@
    }

    /// Every cell used in `self` is still used in `other`.
    pub open spec fn used_leq(self, other: Grid) -> bool {
        forall|x: int, y: int| self.used_at(x, y) ==> other.used_at(x, y)
    }

    /// The glyph at `(x, y)`; a space when out of range.
    pub fn get(&self, x: i32, y: i32) -> (r: char)
        requires
            self.wf(),
        ensures
            r == self.char_at(x as int, y as int),
    {
        if x < 0 || y < 0 || x >= self.width as i32 || y >= self.height as i32 {
            ' '
        } else {
            self.rows[y as usize][x as usize]
        }
    }

    /// The used flag at `(x, y)`; false when out of range.
    pub fn is_used(&self, x: i32, y: i32) -> (r: bool)
        requires
            self.wf(),
        ensures
            r == self.used_at(x as int, y as int),
    {
        if x < 0 || y < 0 || x >= self.width as i32 || y >= self.height as i32 {
            false
        } else {
            let ulen: usize = self.used.len();
            proof {
                lemma_rowmajor_bound(self.width as int, self.height as int, x as int, y as int);
                assert(ulen == self.width * self.height);
            }
            self.used[(y as usize) * self.width + (x as usize)]
        }
    }

    /// Mark `(x, y)` used; a no-op outside the grid.
    pub fn set_used(&mut self, x: i32, y: i32)
        requires
            old(self).wf(),
        ensures
            final (self).wf(),
            final (self).same_cells(*old(self)),
            forall|p: int, q: int|
                final (self).used_at(p, q) == (old(self).used_at(p, q) || (p == x && q == y
                    && old(self).in_range(x as int, y as int))),
    {
        if x < 0 || y < 0 || x >= self.width as i32 || y >= self.height as i32 {
            return ;
        }
        let ulen: usize = self.used.len();
        proof {
            lemma_rowmajor_bound(self.width as int, self.height as int, x as int, y as int);
            assert(ulen == self.width * self.height);
        }
        let idx: usize = (y as usize) * self.width + (x as usize);
        self.used.set(idx, true);
        proof {
            assert forall|p: int, q: int|
                final (self).used_at(p, q) == (old(self).used_at(p, q) || (p == x && q == y)) by {
                if old(self).in_range(p, q) {
                    lemma_rowmajor_bound(self.width as int, self.height as int, p, q);
                    if p == x && q == y {
                    } else if q * self.width + p == y * self.width + x {
                        lemma_rowmajor_inj(self.width as int, x as int, y as int, p, q);
                    }
                }
            }
        }
    }
}

/// A row-major index stays inside the mask.
pub proof fn lemma_rowmajor_bound(w: int, h: int, x: int, y: int)
    requires
        0 <= x < w,
        0 <= y < h,
    ensures
        0 <= y * w + x < w * h,
{
    assert(0 <= y * w + x < w * h) by (nonlinear_arith)
        requires
            0 <= x < w && 0 <= y < h,
    ;
}

/// Row-major indices of distinct cells differ.
pub proof fn lemma_rowmajor_inj(w: int, x1: int, y1: int, x2: int, y2: int)
    requires
        0 <= x1 < w,
        0 <= x2 < w,
        0 <= y1,
        0 <= y2,
        y1 * w + x1 == y2 * w + x2,
    ensures
        x1 == x2 && y1 == y2,
{
    assert(x1 == x2 && y1 == y2) by (nonlinear_arith)
        requires
            0 <= x1 < w && 0 <= x2 < w && 0 <= y1 && 0 <= y2 && y1 * w + x1 == y2 * w + x2,
    ;
}

impl Grid {
    /// Parse a block of text into a grid: split at newlines, pad every row
    /// with spaces to the longest line, and clear the used-mask.  Rows and
    /// columns beyond `MAX_DIM` are dropped.
    pub fn new(text: &str) -> (g: Grid)
        ensures
            g.wf(),
            g.height == if spec_lines(text@).len() > MAX_DIM {
                MAX_DIM as int
            } else {
                spec_lines(text@).len() as int
            },
            g.width == {
                let m = spec_max_len(spec_lines(text@).take(g.height as int));
                if m > MAX_DIM {
                    MAX_DIM as int
                } else {
                    m as int
                }
            },
            forall|x: int, y: int|
                g.in_range(x, y) ==> g.char_at(x, y) == {
                    let line = spec_lines(text@)[y];
                    if x < line.len() {
                        line[x]
                    } else {
                        ' '
                    }
                },
            forall|x: int, y: int| !g.used_at(x, y),
    {
        let cs = text_chars(text);
        let ghost full = cs@;
        let mut lines: Vec<Vec<char>> = Vec::new();
        let mut cur: Vec<char> = Vec::new();
        let mut i: usize = 0;
        proof {
            assert(full.take(0) =~= Seq::<char>::empty());
            assert(spec_first_nl(Seq::<char>::empty()) == 0);
            assert(spec_lines(Seq::<char>::empty()) == seq![Seq::<char>::empty()]);
            assert(lines@.map_values(|r: Vec<char>| r@).push(cur@) =~~= seq![Seq::<char>::empty()]);
        }
        while i < cs.len()
            invariant
                i <= cs.len(),
                cs@ == full,
                spec_lines(full.take(i as int)) == lines@.map_values(|r: Vec<char>| r@).push(cur@),
            decreases cs.len() - i,
        {
            let ghost pre = full.take(i as int);
            let c = cs[i];
            proof {
                assert(full.take(i as int + 1) =~= pre.push(c));
                lemma_lines_push(pre, c);
            }
            if c == '\n' {
                lines.push(cur);
                cur = Vec::new();
                proof {
                    assert(lines@.map_values(|r: Vec<char>| r@).push(cur@) =~~= spec_lines(
                        full.take(i as int + 1),
                    ));
                }
            } else {
                cur.push(c);
                proof {
                    assert(lines@.map_values(|r: Vec<char>| r@).push(cur@) =~~= spec_lines(
                        full.take(i as int + 1),
                    ));
                }
            }
            i = i + 1;
        }
        lines.push(cur);
        proof {
            assert(full.take(cs@.len() as int) =~= full);
            assert(lines@.map_values(|r: Vec<char>| r@) =~~= spec_lines(full));
        }
        let ghost all_lines = spec_lines(text@);
        let height: usize = if lines.len() > MAX_DIM {
            MAX_DIM
        } else {
            lines.len()
        };
        let mut width: usize = 0;
        let mut y: usize = 0;
        while y < height
            invariant
                y <= height,
                height <= lines.len(),
                height <= MAX_DIM,
                lines@.map_values(|r: Vec<char>| r@) == all_lines,
                width as int == {
                    let m = spec_max_len(all_lines.take(y as int));
                    if m > MAX_DIM {
                        MAX_DIM as int
                    } else {
                        m as int
                    }
                },
            decreases height - y,
        {
            let mut l: usize = lines[y].len();
            if l > MAX_DIM {
                l = MAX_DIM;
            }
            if l > width {
                width = l;
            }
            proof {
                assert(all_lines.take(y as int + 1).drop_last() =~~= all_lines.take(y as int));
                assert(all_lines.take(y as int + 1).last() == all_lines[y as int]);
                assert(all_lines[y as int] == lines@[y as int]@);
            }
            y = y + 1;
        }
        let mut rows: Vec<Vec<char>> = Vec::new();
        let mut y: usize = 0;
        while y < height
            invariant
                y <= height,
                height <= lines.len(),
                lines@.map_values(|r: Vec<char>| r@) == all_lines,
                rows@.len() == y,
                forall|q: int| 0 <= q < y ==> rows@[q]@.len() == width,
                forall|p: int, q: int|
                    0 <= q < y && 0 <= p < width ==> rows@[q]@[p] == {
                        let line = all_lines[q];
                        if p < line.len() {
                            line[p]
                        } else {
                            ' '
                        }
                    },
            decreases height - y,
        {
            let src = &lines[y];
            let mut row: Vec<char> = Vec::new();
            let mut x: usize = 0;
            while x < width
                invariant
                    x <= width,
                    (y as int) < all_lines.len(),
                    src@ == all_lines[y as int],
                    row@.len() == x,
                    forall|p: int|
                        0 <= p < x ==> row@[p] == {
                            let line = all_lines[y as int];
                            if p < line.len() {
                                line[p]
                            } else {
                                ' '
                            }
                        },
                decreases width - x,
            {
                if x < src.len() {
                    let c = src[x];
                    row.push(c);
                } else {
                    row.push(' ');
                }
                x = x + 1;
            }
            rows.push(row);
            y = y + 1;
        }
        let mut used: Vec<bool> = Vec::new();
        proof {
            assert(width * height <= MAX_DIM * MAX_DIM) by (nonlinear_arith)
                requires
                    width <= MAX_DIM && height <= MAX_DIM,
            ;
        }
        let total: usize = width * height;
        let mut k: usize = 0;
        while k < total
            invariant
                k <= total,
                used@.len() == k,
                forall|j: int| 0 <= j < k ==> !used@[j],
            decreases total - k,
        {
            used.push(false);
            k = k + 1;
        }
        let g = Grid { width, height, rows, used };
        proof {
            assert forall|x: int, y2: int| !g.used_at(x, y2) by {
                if g.in_range(x, y2) {
                    lemma_rowmajor_bound(g.width as int, g.height as int, x, y2);
                }
            }
        }
        g
    }
}

/// The first text cell at or after `x` in row `y`, or the width when the
/// rest of the row holds none.
pub open spec fn spec_text_start(g: Grid, x: int, y: int) -> int
    decreases g.width - x,
{
    if x >= g.width {
        g.width as int
    } else if g.char_at(x, y) != ' ' && !g.used_at(x, y) {
        x
    } else {
        spec_text_start(g, x + 1, y)
    }
}

/// The start lies between `x` and the width, on a text cell when inside.
pub proof fn lemma_text_start_bounds(g: Grid, x: int, y: int)
    requires
        x <= g.width,
    ensures
        x <= spec_text_start(g, x, y) <= g.width,
        spec_text_start(g, x, y) < g.width ==> g.text_cell(spec_text_start(g, x, y), y),
    decreases g.width - x,
{
    if !(x >= g.width) && !(g.char_at(x, y) != ' ' && !g.used_at(x, y)) {
        lemma_text_start_bounds(g, x + 1, y);
    }
}

/// The start is the first text cell.
pub proof fn lemma_text_start_val(g: Grid, s: int, x: int, y: int)
    requires
        0 <= s <= x <= g.width,
        forall|j: int| s <= j < x ==> !g.text_cell(j, y),
        x == g.width || g.text_cell(x, y),
    ensures
        spec_text_start(g, s, y) == x,
    decreases x - s,
{
    if s < x {
        assert(!g.text_cell(s, y));
        lemma_text_start_val(g, s + 1, x, y);
    }
}

/// Where the raw text run scanning from `cx` with `sr` pending blanks
/// stops: the row end, a used cell, or the blank that completes a block of
/// `spaces` consecutive blanks.
pub open spec fn spec_run_end(g: Grid, y: int, spaces: int, cx: int, sr: int) -> int
    decreases g.width - cx,
{
    if cx >= g.width || g.used_at(cx, y) {
        cx
    } else if g.char_at(cx, y) == ' ' {
        if sr + 1 >= spaces {
            cx
        } else {
            spec_run_end(g, y, spaces, cx + 1, sr + 1)
        }
    } else {
        spec_run_end(g, y, spaces, cx + 1, 0)
    }
}

/// The raw end lies between its start and the width.
pub proof fn lemma_run_end_bounds(g: Grid, y: int, spaces: int, cx: int, sr: int)
    requires
        cx <= g.width,
    ensures
        cx <= spec_run_end(g, y, spaces, cx, sr) <= g.width,
    decreases g.width - cx,
{
    if !(cx >= g.width || g.used_at(cx, y)) {
        if g.char_at(cx, y) == ' ' {
            if !(sr + 1 >= spaces) {
                lemma_run_end_bounds(g, y, spaces, cx + 1, sr + 1);
            }
        } else {
            lemma_run_end_bounds(g, y, spaces, cx + 1, 0);
        }
    }
}

/// The raw run, trimmed of trailing blanks: the first position at or
/// before `e` whose predecessor is not a blank (never before `s`).
pub open spec fn spec_trim(g: Grid, y: int, s: int, e: int) -> int
    decreases e - s,
{
    if e <= s || g.char_at(e - 1, y) != ' ' {
        e
    } else {
        spec_trim(g, y, s, e - 1)
    }
}

/// The trim point is determined by the last non-blank.
pub proof fn lemma_trim_val(g: Grid, y: int, s: int, e: int, k: int)
    requires
        s < k <= e,
        g.char_at(k - 1, y) != ' ',
        forall|j: int| #![trigger g.char_at(j, y)] k <= j < e ==> g.char_at(j, y) == ' ',
    ensures
        spec_trim(g, y, s, e) == k,
    decreases e - k,
{
    if e > k {
        assert(g.char_at(e - 1, y) == ' ');
        lemma_trim_val(g, y, s, e - 1, k);
    }
}

/// The trim point lies between the start and the raw end, past the start
/// when the start is not a blank.
pub proof fn lemma_trim_bounds(g: Grid, y: int, s: int, e: int)
    requires
        s <= e,
    ensures
        s <= spec_trim(g, y, s, e) <= e,
        s < e && g.char_at(s, y) != ' ' ==> spec_trim(g, y, s, e) >= s + 1,
    decreases e - s,
{
    if !(e <= s || g.char_at(e - 1, y) != ' ') {
        lemma_trim_bounds(g, y, s, e - 1);
    }
}

/// A text run holds at least one character and stays within the row.
pub proof fn lemma_run_len_bounds(g: Grid, sx: int, y: int, spaces: int)
    requires
        0 <= sx < g.width,
        g.char_at(sx, y) != ' ',
    ensures
        1 <= spec_run_len(g, sx, y, spaces),
        sx + spec_run_len(g, sx, y, spaces) <= g.width,
{
    if spaces > 0 {
        lemma_run_end_bounds(g, y, spaces, sx + 1, 0);
        lemma_trim_bounds(g, y, sx, spec_run_end(g, y, spaces, sx + 1, 0));
    }
}

/// How many characters the text run starting at the text cell `sx`
/// yields: the raw extent to `spec_run_end`, trimmed of trailing blanks —
/// or one single character when `spaces` is zero.
pub open spec fn spec_run_len(g: Grid, sx: int, y: int, spaces: int) -> int {
    if spaces <= 0 {
        1
    } else {
        spec_trim(g, y, sx, spec_run_end(g, y, spaces, sx + 1, 0)) - sx
    }
}

/// The characters of the text run starting at `sx`.
pub open spec fn spec_run_text(g: Grid, sx: int, y: int, spaces: int) -> Seq<char> {
    Seq::new(spec_run_len(g, sx, y, spaces) as nat, |i: int| g.char_at(sx + i, y))
}

impl Grid {
    /// A cell that still reads as text: not a space and not claimed by a
    /// recognised shape.
    pub open spec fn text_cell(self, x: int, y: int) -> bool {
        self.char_at(x, y) != ' ' && !self.used_at(x, y)
    }

    /// The first text cell at or after `x` in row `y`, if any.
    pub fn text_start(&self, x: i32, y: i32) -> (r: Option<i32>)
        requires
            self.wf(),
            0 <= x,
            0 <= y < self.height,
        ensures
            match r {
                Some(sx) => x <= sx < self.width && self.text_cell(sx as int, y as int) && forall|
                    j: int,
                |
                    x <= j < sx ==> !self.text_cell(j, y as int),
                None => forall|j: int| x <= j < self.width ==> !self.text_cell(j, y as int),
            },
            match r {
                Some(sx) => sx == spec_text_start(*self, x as int, y as int),
                None => x >= self.width || spec_text_start(*self, x as int, y as int)
                    == self.width,
            },
    {
        let width: i32 = self.width as i32;
        if x >= width {
            return None;
        }
        let mut cx: i32 = x;
        while cx < width
            invariant
                self.wf(),
                width == self.width,
                0 <= y < self.height,
                0 <= x <= cx <= width,
                forall|j: int| x <= j < cx ==> !self.text_cell(j, y as int),
            decreases width - cx,
        {
            if self.get(cx, y) != ' ' && !self.is_used(cx, y) {
                proof {
                    lemma_text_start_val(*self, x as int, cx as int, y as int);
                }
                return Some(cx);
            }
            cx = cx + 1;
        }
        proof {
            lemma_text_start_val(*self, x as int, width as int, y as int);
        }
        None
    }

    /// The run of text starting at a text cell: unused glyphs up to the row
    /// end, a used cell, or a block of `spaces` consecutive spaces, with
    /// trailing spaces trimmed.  With `spaces` zero every character stands
    /// alone.  Returns the text and its length in characters.
    pub fn extract_text(&self, start_x: i32, y: i32, spaces: u32) -> (r: (String, usize))
        requires
            self.wf(),
            0 <= start_x < self.width,
            0 <= y < self.height,
            self.text_cell(start_x as int, y as int),
        ensures
            r.1 == r.0@.len(),
            1 <= r.0@.len() <= self.width - start_x,
            forall|j: int|
                0 <= j < r.0@.len() ==> (#[trigger] r.0@[j]) == self.char_at(start_x + j, y as int)
                    && !self.used_at(start_x + j, y as int),
            r.0@.last() != ' ',
            spaces == 0 ==> r.0@.len() == 1,
            r.1 == spec_run_len(*self, start_x as int, y as int, spaces as int),
            r.0@ == spec_run_text(*self, start_x as int, y as int, spaces as int),
    {
        let width: i32 = self.width as i32;
        let mut run: Vec<char> = Vec::new();
        run.push(self.get(start_x, y));
        let mut kept: usize = 1;
        let mut cx: i32 = start_x + 1;
        let mut space_run: u32 = 0;
        if spaces > 0 {
            let mut done: bool = false;
            while !done
                invariant
                    self.wf(),
                    width == self.width,
                    0 <= y < self.height,
                    0 <= start_x < cx <= width,
                    run@.len() == cx - start_x,
                    !done ==> space_run < spaces,
                    !done ==> space_run < run@.len(),
                    1 <= kept <= run@.len(),
                    run@[kept - 1] != ' ',
                    forall|j: int| kept <= j < run@.len() ==> run@[j] == ' ',
                    forall|p: int|
                        start_x <= p < cx ==> (#[trigger] self.char_at(p, y as int)) == run@[p
                            - start_x] && !self.used_at(p, y as int),
                    !done ==> spec_run_end(
                        *self,
                        y as int,
                        spaces as int,
                        cx as int,
                        space_run as int,
                    ) == spec_run_end(*self, y as int, spaces as int, start_x + 1, 0),
                    done ==> spec_run_end(*self, y as int, spaces as int, start_x + 1, 0)
                        == cx as int,
                decreases width - cx + (if done {
                    0int
                } else {
                    1int
                }),
            {
                if cx >= width {
                    done = true;
                } else {
                    let c = self.get(cx, y);
                    if self.is_used(cx, y) {
                        done = true;
                    } else if c == ' ' {
                        space_run = space_run + 1;
                        if space_run >= spaces {
                            done = true;
                        } else {
                            run.push(c);
                            proof {
                                assert forall|p: int|
                                    start_x <= p < cx + 1 implies (#[trigger] self.char_at(
                                    p,
                                    y as int,
                                )) == run@[p - start_x] && !self.used_at(p, y as int) by {
                                    if p < cx {
                                        assert(run@[p - start_x] == run@.drop_last()[p - start_x]);
                                    }
                                }
                            }
                            cx = cx + 1;
                        }
                    } else {
                        space_run = 0;
                        run.push(c);
                        kept = run.len();
                        proof {
                            assert forall|p: int|
                                start_x <= p < cx + 1 implies (#[trigger] self.char_at(
                                p,
                                y as int,
                            )) == run@[p - start_x] && !self.used_at(p, y as int) by {
                                if p < cx {
                                    assert(run@[p - start_x] == run@.drop_last()[p - start_x]);
                                }
                            }
                        }
                        cx = cx + 1;
                    }
                }
            }
        }
        let mut out = String::new();
        let mut i: usize = 0;
        while i < kept
            invariant
                i <= kept <= run@.len(),
                out@ == run@.take(i as int),
            decreases kept - i,
        {
            crate::numfmt::push_char(&mut out, run[i]);
            proof {
                assert(out@ =~= run@.take(i as int + 1));
            }
            i = i + 1;
        }
        proof {
            assert(out@.len() == kept);
            assert(forall|j: int| 0 <= j < kept ==> out@[j] == run@[j]);
            assert(out@.last() == run@[kept - 1]);
            assert forall|j: int|
                0 <= j < out@.len() implies (#[trigger] out@[j]) == self.char_at(
                start_x + j,
                y as int,
            ) && !self.used_at(start_x + j, y as int) by {
                assert(self.char_at(start_x + j, y as int) == run@[j]);
            }
            if spaces == 0 {
                assert(out@ =~= spec_run_text(*self, start_x as int, y as int, spaces as int));
            } else {
                let raw = start_x + run@.len();
                assert(spec_run_end(*self, y as int, spaces as int, start_x + 1, 0) == raw);
                assert forall|j: int|
                    #![trigger self.char_at(j, y as int)]
                    start_x + kept <= j < raw implies self.char_at(j, y as int) == ' ' by {
                    assert(self.char_at(j, y as int) == run@[j - start_x]);
                }
                assert(self.char_at(start_x + kept - 1, y as int) == run@[kept - 1]);
                lemma_trim_val(*self, y as int, start_x as int, raw, start_x + kept);
                assert(spec_run_len(*self, start_x as int, y as int, spaces as int)
                    == kept as int);
                assert(out@ =~= spec_run_text(*self, start_x as int, y as int, spaces as int));
            }
        }
        (out, kept)
    }
}

} // verus!
