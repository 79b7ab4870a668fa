//! Text wrapping and overlay placement for the terminal UI.

use vstd::prelude::*;
use crate::text::{chars_of, is_white_space, is_whitespace, string_of};
use ratatui::layout::{Constraint, Direction, Layout, Rect};

verus! {

/// A screen rectangle. Rectangles built by [`rect_new`] stay within the
/// `u16` coordinate space: `x + width` and `y + height` fit in a `u16`.
#[derive(Clone, Copy, Debug, PartialEq, Eq, Structural)]
pub struct Area {
    pub x: u16,
    pub y: u16,
    pub width: u16,
    pub height: u16,
}

/// Whether `a` lies within the `u16` coordinate space.
pub open spec fn area_wf(a: Area) -> bool {
    a.x + a.width <= u16::MAX && a.y + a.height <= u16::MAX
}

/// `ratatui::layout::Rect::new`: the rectangle at `(x, y)` with the given
/// size, width and height clamped so that it stays within the `u16` space.
#[verifier::external_body]
fn rect_new(x: u16, y: u16, width: u16, height: u16) -> (r: Area)
    ensures
        r == (Area {
            x,
            y,
            width: if width > u16::MAX - x {
                (u16::MAX - x) as u16
            } else {
                width
            },
            height: if height > u16::MAX - y {
                (u16::MAX - y) as u16
            } else {
                height
            },
        }),
{
    let r = ratatui::layout::Rect::new(x, y, width, height);
    Area { x: r.x, y: r.y, width: r.width, height: r.height }
}

/// The display width (terminal columns) that `ratatui::text::Span::width`
/// reports for `s`.
pub uninterp spec fn span_width(s: Seq<char>) -> usize;

/// `ratatui::text::Span::raw(s).width()` (unicode-width's `str_width`); its
/// result is named, not described, except that every character up to U+00A0
/// other than `\r` counts one column, so such text is as wide as it is long.
#[verifier::external_body]
fn span_width_of(s: &str) -> (r: usize)
    ensures
        r == span_width(s@),
        (forall|i: int| 0 <= i < s@.len() ==> (#[trigger] s@[i] as u32) <= 0xA0 && s@[i] != '\r') ==> r
            == s@.len(),
{
    ratatui::text::Span::raw(s).width()
}

/// The display width of `s` as a `u16` (truncated like `as u16`).
pub open spec fn display_width_spec(s: Seq<char>) -> u16 {
    span_width(s) as u16
}

/// The display width of `s` in terminal columns, as a `u16`.
pub fn display_width(s: &str) -> (r: u16)
    ensures
        r == display_width_spec(s@),
{
    let w = span_width_of(s);
    #[verifier::truncate]
    (w as u16)
}

/// The selection marker: `"> "` without colours, else none.
pub fn highlight_symbol(no_color: bool) -> (r: &'static str)
    ensures
        r@ == (if no_color {
            "> "@
        } else {
            ""@
        }),
{
    if no_color {
        "> "
    } else {
        ""
    }
}

// ─── Splitting ─────────────────────────────────────────────

pub type Pieces = (Seq<Seq<char>>, Seq<char>);

/// Scanning for whitespace-separated words: the words finished so far and the
/// word being read.
pub open spec fn words_scan(s: Seq<char>) -> Pieces
    decreases s.len(),
{
    if s.len() == 0 {
        (Seq::empty(), Seq::empty())
    } else {
        let (done, cur) = words_scan(s.drop_last());
        let c = s.last();
        if is_white_space(c) {
            if cur.len() > 0 {
                (done.push(cur), Seq::empty())
            } else {
                (done, cur)
            }
        } else {
            (done, cur.push(c))
        }
    }
}

/// The whitespace-separated words of `s` (`str::split_whitespace`).
pub open spec fn split_words(s: Seq<char>) -> Seq<Seq<char>> {
    let (done, cur) = words_scan(s);
    if cur.len() > 0 {
        done.push(cur)
    } else {
        done
    }
}

/// A line ended by `\n` loses a trailing `\r`.
pub open spec fn strip_cr(line: Seq<char>) -> Seq<char> {
    if line.len() > 0 && line.last() == '\r' {
        line.drop_last()
    } else {
        line
    }
}

/// Scanning for lines: the lines finished so far and the line being read.
pub open spec fn lines_scan(s: Seq<char>) -> Pieces
    decreases s.len(),
{
    if s.len() == 0 {
        (Seq::empty(), Seq::empty())
    } else {
        let (done, cur) = lines_scan(s.drop_last());
        let c = s.last();
        if c == '\n' {
            (done.push(strip_cr(cur)), Seq::empty())
        } else {
            (done, cur.push(c))
        }
    }
}

/// The lines of `s` (`str::lines`): split at `\n` (a `\r` before it
/// dropped); a final empty line is not produced.
pub open spec fn split_lines(s: Seq<char>) -> Seq<Seq<char>> {
    let (done, cur) = lines_scan(s);
    if cur.len() > 0 {
        done.push(cur)
    } else {
        done
    }
}

proof fn lemma_words_scan_nonempty(s: Seq<char>)
    ensures
        forall|i: int| 0 <= i < words_scan(s).0.len() ==> (#[trigger] words_scan(s).0[i]).len() > 0,
    decreases s.len(),
{
    if s.len() > 0 {
        lemma_words_scan_nonempty(s.drop_last());
        let (d, c) = words_scan(s.drop_last());
        let r = words_scan(s).0;
        assert forall|i: int| 0 <= i < r.len() implies (#[trigger] r[i]).len() > 0 by {
            if i < d.len() {
                assert(d[i].len() > 0);
                if is_white_space(s.last()) && c.len() > 0 {
                    assert(r == d.push(c));
                }
            } else {
                assert(is_white_space(s.last()) && c.len() > 0);
                assert(r == d.push(c));
            }
        }
    }
}

/// Every word is non-empty.
proof fn lemma_words_nonempty(s: Seq<char>)
    ensures
        forall|i: int| 0 <= i < split_words(s).len() ==> (#[trigger] split_words(s)[i]).len() > 0,
{
    lemma_words_scan_nonempty(s);
}

fn words_of(s: &Vec<char>) -> (r: Vec<String>)
    ensures
        r.deep_view() == split_words(s@),
{
    let mut done: Vec<String> = Vec::new();
    let mut cur: Vec<char> = Vec::new();
    let mut i: usize = 0;
    while i < s.len()
        invariant
            0 <= i <= s.len(),
            (done.deep_view(), cur@) == words_scan(s@.take(i as int)),
        decreases s.len() - i,
    {
        assert(s@.take(i + 1).drop_last() =~= s@.take(i as int));
        let c = s[i];
        if is_whitespace(c) {
            if cur.len() > 0 {
                let ghost prev = done.deep_view();
                let w = string_of(&cur);
                done.push(w);
                assert(done.deep_view() =~= prev.push(cur@));
                cur = Vec::new();
                assert(cur@ =~= Seq::<char>::empty());
            }
        } else {
            cur.push(c);
        }
        i += 1;
    }
    assert(s@.take(s.len() as int) =~= s@);
    if cur.len() > 0 {
        let ghost prev = done.deep_view();
        let w = string_of(&cur);
        done.push(w);
        assert(done.deep_view() =~= prev.push(cur@));
    }
    done
}

pub(crate) fn lines_of(s: &Vec<char>) -> (r: Vec<Vec<char>>)
    ensures
        r@.len() == split_lines(s@).len(),
        forall|i: int| 0 <= i < r@.len() ==> (#[trigger] r@[i])@ == split_lines(s@)[i],
{
    let mut done: Vec<Vec<char>> = Vec::new();
    let mut cur: Vec<char> = Vec::new();
    let mut i: usize = 0;
    while i < s.len()
        invariant
            0 <= i <= s.len(),
            done@.len() == lines_scan(s@.take(i as int)).0.len(),
            forall|j: int|
                0 <= j < done@.len() ==> (#[trigger] done@[j])@ == lines_scan(s@.take(i as int)).0[j],
            cur@ == lines_scan(s@.take(i as int)).1,
        decreases s.len() - i,
    {
        assert(s@.take(i + 1).drop_last() =~= s@.take(i as int));
        let c = s[i];
        if c == '\n' {
            let mut line = cur;
            if line.len() > 0 && line[line.len() - 1] == '\r' {
                line.pop();
            }
            assert(line@ =~= strip_cr(lines_scan(s@.take(i as int)).1));
            done.push(line);
            cur = Vec::new();
            assert(cur@ =~= Seq::<char>::empty());
        } else {
            cur.push(c);
        }
        i += 1;
    }
    assert(s@.take(s.len() as int) =~= s@);
    if cur.len() > 0 {
        done.push(cur);
    }
    done
}

// ─── Wrapping ──────────────────────────────────────────────

pub type WrapState = (Seq<Seq<char>>, Seq<char>, int);

/// The width a word takes when wrapping.
pub open spec fn word_width(w: Seq<char>) -> int {
    display_width_spec(w) as int
}

/// Placing one word: it starts a new line when the current one is not empty
/// and the word (after a separating space) would not fit in `width`.
pub open spec fn wrap_word(st: WrapState, w: Seq<char>, width: int) -> WrapState {
    let ww = word_width(w);
    let sep: int = if st.1.len() > 0 {
        1
    } else {
        0
    };
    let st1: WrapState = if st.2 + sep + ww > width && st.1.len() > 0 {
        (st.0.push(st.1), Seq::empty(), 0)
    } else {
        st
    };
    let st2: WrapState = if st1.1.len() > 0 {
        (st1.0, st1.1.push(' '), st1.2 + 1)
    } else {
        st1
    };
    (st2.0, st2.1 + w, st2.2 + ww)
}

/// Placing words in order.
pub open spec fn wrap_words(st: WrapState, ws: Seq<Seq<char>>, width: int) -> WrapState
    decreases ws.len(),
{
    if ws.len() == 0 {
        st
    } else {
        wrap_word(wrap_words(st, ws.drop_last(), width), ws.last(), width)
    }
}

/// Wrapping lines in order: each line's words are placed greedily and the
/// line ends with whatever is left.
pub open spec fn wrap_lines(ls: Seq<Seq<char>>, width: int) -> Seq<Seq<char>>
    decreases ls.len(),
{
    if ls.len() == 0 {
        Seq::empty()
    } else {
        let acc = wrap_lines(ls.drop_last(), width);
        let st = wrap_words((acc, Seq::empty(), 0), split_words(ls.last()), width);
        st.0.push(st.1)
    }
}

proof fn lemma_wrap_words_grows(st: WrapState, ws: Seq<Seq<char>>, width: int)
    ensures
        wrap_words(st, ws, width).0.len() >= st.0.len(),
        forall|i: int| 0 <= i < st.0.len() ==> #[trigger] wrap_words(st, ws, width).0[i] == st.0[i],
    decreases ws.len(),
{
    if ws.len() > 0 {
        lemma_wrap_words_grows(st, ws.drop_last(), width);
    }
}

/// Wrapping keeps the message's line breaks: every line of the message
/// yields at least one wrapped line, and the wrapped lines of the earlier
/// message lines come first, unchanged.
pub proof fn lemma_wrap_lines_grows(ls: Seq<Seq<char>>, width: int)
    ensures
        wrap_lines(ls, width).len() >= ls.len(),
        ls.len() > 0 ==> forall|i: int|
            0 <= i < wrap_lines(ls.drop_last(), width).len() ==> #[trigger] wrap_lines(ls, width)[i]
                == wrap_lines(ls.drop_last(), width)[i],
    decreases ls.len(),
{
    if ls.len() > 0 {
        let acc = wrap_lines(ls.drop_last(), width);
        lemma_wrap_lines_grows(ls.drop_last(), width);
        lemma_wrap_words_grows((acc, Seq::empty(), 0), split_words(ls.last()), width);
        let st = wrap_words((acc, Seq::empty(), 0), split_words(ls.last()), width);
        assert forall|i: int| 0 <= i < acc.len() implies #[trigger] wrap_lines(ls, width)[i] == acc[i] by {
            assert(st.0.push(st.1)[i] == st.0[i]);
        }
    }
}

/// A word as wrapping sees it: non-empty, without whitespace.
pub open spec fn word_ok(w: Seq<char>) -> bool {
    w.len() > 0 && forall|i: int| 0 <= i < w.len() ==> !is_white_space(#[trigger] w[i])
}

/// Words joined by single spaces.
pub open spec fn join_words(ws: Seq<Seq<char>>) -> Seq<char>
    decreases ws.len(),
{
    if ws.len() == 0 {
        Seq::empty()
    } else if ws.len() == 1 {
        ws[0]
    } else {
        join_words(ws.drop_last()) + seq![' '] + ws.last()
    }
}

/// The width of words joined by single spaces.
pub open spec fn group_width(ws: Seq<Seq<char>>) -> int
    decreases ws.len(),
{
    if ws.len() == 0 {
        0
    } else if ws.len() == 1 {
        word_width(ws[0])
    } else {
        group_width(ws.drop_last()) + 1 + word_width(ws.last())
    }
}

/// Whether a line of words fits `width`: a single word always does (words
/// are never split), several only when their joined width is within it.
pub open spec fn group_fits(ws: Seq<Seq<char>>, width: int) -> bool {
    ws.len() <= 1 || group_width(ws) <= width
}

/// A well-formed wrapped line: words (non-empty, without whitespace) joined
/// by single spaces, fitting `width`.
pub open spec fn good_group(ws: Seq<Seq<char>>, width: int) -> bool {
    &&& group_fits(ws, width)
    &&& forall|i: int| 0 <= i < ws.len() ==> word_ok(#[trigger] ws[i])
}

/// Whether `line` is some well-formed group of words fitting `width`.
pub open spec fn line_fits(line: Seq<char>, width: int) -> bool {
    exists|ws: Seq<Seq<char>>| good_group(ws, width) && #[trigger] join_words(ws) == line
}

pub type GroupState = (Seq<Seq<Seq<char>>>, Seq<Seq<char>>);

/// Placing one word into groups, as [`wrap_word`] places it into lines.
pub open spec fn group_word(g: GroupState, w: Seq<char>, width: int) -> GroupState {
    if g.1.len() > 0 && group_width(g.1) + 1 + word_width(w) > width {
        (g.0.push(g.1), seq![w])
    } else {
        (g.0, g.1.push(w))
    }
}

pub open spec fn group_words(g: GroupState, ws: Seq<Seq<char>>, width: int) -> GroupState
    decreases ws.len(),
{
    if ws.len() == 0 {
        g
    } else {
        group_word(group_words(g, ws.drop_last(), width), ws.last(), width)
    }
}

/// The wrapping state and the grouping agree: lines finished since `base`
/// are the joined finished groups, the current line is the joined current
/// group and its width counter is the group's width; every group is good.
pub open spec fn groups_match(st: WrapState, g: GroupState, base: Seq<Seq<char>>, width: int) -> bool {
    &&& st.0 == base + g.0.map_values(|ws: Seq<Seq<char>>| join_words(ws))
    &&& st.1 == join_words(g.1)
    &&& st.2 == group_width(g.1)
    &&& good_group(g.1, width)
    &&& forall|i: int| 0 <= i < g.0.len() ==> good_group(#[trigger] g.0[i], width)
}

proof fn lemma_join_nonempty(ws: Seq<Seq<char>>)
    requires
        ws.len() > 0,
        word_ok(ws.last()),
    ensures
        join_words(ws).len() > 0,
    decreases ws.len(),
{
}

proof fn lemma_group_word(st: WrapState, g: GroupState, base: Seq<Seq<char>>, w: Seq<char>, width: int)
    requires
        groups_match(st, g, base, width),
        word_ok(w),
    ensures
        groups_match(wrap_word(st, w, width), group_word(g, w, width), base, width),
{
    let ww = word_width(w);
    if g.1.len() > 0 {
        assert(word_ok(g.1[g.1.len() - 1]));
        lemma_join_nonempty(g.1);
    } else {
        assert(join_words(g.1) =~= Seq::<char>::empty());
    }
    let r = wrap_word(st, w, width);
    let h = group_word(g, w, width);
    if g.1.len() > 0 && group_width(g.1) + 1 + ww > width {
        assert(h.0.map_values(|ws: Seq<Seq<char>>| join_words(ws)) =~= g.0.map_values(
            |ws: Seq<Seq<char>>| join_words(ws),
        ).push(join_words(g.1)));
        assert(r.0 =~= base + h.0.map_values(|ws: Seq<Seq<char>>| join_words(ws)));
        assert(r.1 =~= join_words(h.1));
        assert forall|i: int| 0 <= i < h.0.len() implies good_group(#[trigger] h.0[i], width) by {
            if i < g.0.len() {
                assert(h.0[i] == g.0[i]);
            }
        }
    } else if g.1.len() > 0 {
        let n = g.1.push(w);
        assert(n.drop_last() =~= g.1);
        assert(r.1 =~= join_words(g.1) + seq![' '] + w);
        assert(r.1 =~= join_words(n));
        assert forall|i: int| 0 <= i < n.len() implies word_ok(#[trigger] n[i]) by {
            if i < g.1.len() {
                assert(n[i] == g.1[i]);
            }
        }
    } else {
        let n = g.1.push(w);
        assert(r.1 =~= w);
        assert(n.len() == 1 && n[0] == w);
    }
}

proof fn lemma_group_words(st: WrapState, g: GroupState, base: Seq<Seq<char>>, ws: Seq<Seq<char>>, width: int)
    requires
        groups_match(st, g, base, width),
        forall|i: int| 0 <= i < ws.len() ==> word_ok(#[trigger] ws[i]),
    ensures
        groups_match(wrap_words(st, ws, width), group_words(g, ws, width), base, width),
    decreases ws.len(),
{
    if ws.len() > 0 {
        assert forall|i: int| 0 <= i < ws.drop_last().len() implies word_ok(#[trigger] ws.drop_last()[i]) by {
            assert(ws.drop_last()[i] == ws[i]);
        }
        lemma_group_words(st, g, base, ws.drop_last(), width);
        assert(word_ok(ws[ws.len() - 1]));
        lemma_group_word(
            wrap_words(st, ws.drop_last(), width),
            group_words(g, ws.drop_last(), width),
            base,
            ws.last(),
            width,
        );
    }
}

proof fn lemma_words_scan_ok(s: Seq<char>)
    ensures
        forall|i: int| 0 <= i < words_scan(s).0.len() ==> word_ok(#[trigger] words_scan(s).0[i]),
        forall|i: int| 0 <= i < words_scan(s).1.len() ==> !is_white_space(#[trigger] words_scan(s).1[i]),
    decreases s.len(),
{
    if s.len() > 0 {
        lemma_words_scan_ok(s.drop_last());
        let (d, c) = words_scan(s.drop_last());
        let (d2, c2) = words_scan(s);
        if is_white_space(s.last()) {
            if c.len() > 0 {
                assert forall|i: int| 0 <= i < d2.len() implies word_ok(#[trigger] d2[i]) by {
                    if i < d.len() {
                        assert(d2[i] == d[i]);
                    }
                }
            }
        } else {
            assert forall|i: int| 0 <= i < c2.len() implies !is_white_space(#[trigger] c2[i]) by {
                if i < c.len() {
                    assert(c2[i] == c[i]);
                }
            }
        }
    }
}

proof fn lemma_words_ok(s: Seq<char>)
    ensures
        forall|i: int| 0 <= i < split_words(s).len() ==> word_ok(#[trigger] split_words(s)[i]),
{
    lemma_words_scan_ok(s);
    let (d, c) = words_scan(s);
    if c.len() > 0 {
        let r = d.push(c);
        assert forall|i: int| 0 <= i < r.len() implies word_ok(#[trigger] r[i]) by {
            if i < d.len() {
                assert(r[i] == d[i]);
            }
        }
    }
}

/// Every wrapped line is words of the message (never split) joined by single
/// spaces, and fits the width unless it is a single word.
pub proof fn lemma_wrap_lines_fit(ls: Seq<Seq<char>>, width: int)
    ensures
        forall|i: int| 0 <= i < wrap_lines(ls, width).len() ==> line_fits(
            #[trigger] wrap_lines(ls, width)[i],
            width,
        ),
    decreases ls.len(),
{
    if ls.len() > 0 {
        let acc = wrap_lines(ls.drop_last(), width);
        lemma_wrap_lines_fit(ls.drop_last(), width);
        let ws = split_words(ls.last());
        lemma_words_ok(ls.last());
        let st0: WrapState = (acc, Seq::empty(), 0);
        let g0: GroupState = (Seq::empty(), Seq::empty());
        assert(acc + g0.0.map_values(|ws: Seq<Seq<char>>| join_words(ws)) =~= acc);
        assert(groups_match(st0, g0, acc, width));
        lemma_group_words(st0, g0, acc, ws, width);
        let st = wrap_words(st0, ws, width);
        let g = group_words(g0, ws, width);
        let r = st.0.push(st.1);
        assert forall|i: int| 0 <= i < r.len() implies line_fits(#[trigger] r[i], width) by {
            if i < acc.len() {
                assert(r[i] == acc[i]);
            } else if i < st.0.len() {
                let k = i - acc.len();
                assert(r[i] == st.0[i]);
                assert(st.0[i] == g.0.map_values(|ws: Seq<Seq<char>>| join_words(ws))[k]);
                assert(good_group(g.0[k], width));
                assert(join_words(g.0[k]) == r[i]);
            } else {
                assert(r[i] == join_words(g.1));
            }
        }
    }
}

/// Groups of words laid end to end.
pub open spec fn concat_groups(gs: Seq<Seq<Seq<char>>>) -> Seq<Seq<char>>
    decreases gs.len(),
{
    if gs.len() == 0 {
        Seq::empty()
    } else {
        concat_groups(gs.drop_last()) + gs.last()
    }
}

/// The groups a message line is wrapped into: its words grouped greedily,
/// the last group included.
pub open spec fn line_groups(line: Seq<char>, width: int) -> Seq<Seq<Seq<char>>> {
    let g = group_words((Seq::empty(), Seq::empty()), split_words(line), width);
    g.0.push(g.1)
}

/// The wrapped lines of message lines `ls`, from their groups.
pub open spec fn lines_from_groups(ls: Seq<Seq<char>>, width: int) -> Seq<Seq<char>>
    decreases ls.len(),
{
    if ls.len() == 0 {
        Seq::empty()
    } else {
        lines_from_groups(ls.drop_last(), width) + line_groups(ls.last(), width).map_values(
            |ws: Seq<Seq<char>>| join_words(ws),
        )
    }
}

proof fn lemma_group_words_concat(g: GroupState, ws: Seq<Seq<char>>, width: int)
    ensures
        concat_groups(group_words(g, ws, width).0.push(group_words(g, ws, width).1)) == concat_groups(
            g.0.push(g.1),
        ) + ws,
    decreases ws.len(),
{
    if ws.len() == 0 {
        assert(concat_groups(g.0.push(g.1)) + ws =~= concat_groups(g.0.push(g.1)));
    } else {
        lemma_group_words_concat(g, ws.drop_last(), width);
        let h = group_words(g, ws.drop_last(), width);
        let w = ws.last();
        let r = group_word(h, w, width);
        let before = concat_groups(h.0.push(h.1));
        assert(h.0.push(h.1).drop_last() =~= h.0);
        if h.1.len() > 0 && group_width(h.1) + 1 + word_width(w) > width {
            assert(r.0.push(r.1).drop_last() =~= h.0.push(h.1));
            assert(concat_groups(r.0.push(r.1)) =~= before + seq![w]);
        } else {
            assert(r.0.push(r.1).drop_last() =~= h.0);
            assert(concat_groups(r.0.push(r.1)) =~= concat_groups(h.0) + h.1.push(w));
            assert(before =~= concat_groups(h.0) + h.1);
        }
        assert(ws =~= ws.drop_last().push(w));
        assert(concat_groups(g.0.push(g.1)) + ws =~= concat_groups(g.0.push(g.1)) + ws.drop_last()
            + seq![w]);
    }
}

/// Wrapping never splits, drops or reorders words: each message line's
/// groups, laid end to end, are its words, and the wrapped lines are the
/// groups joined by single spaces, line after line.
pub proof fn lemma_wrap_keeps_words(ls: Seq<Seq<char>>, width: int)
    ensures
        wrap_lines(ls, width) == lines_from_groups(ls, width),
        forall|i: int| 0 <= i < ls.len() ==> concat_groups(#[trigger] line_groups(ls[i], width)) == split_words(
            ls[i],
        ),
    decreases ls.len(),
{
    if ls.len() > 0 {
        lemma_wrap_keeps_words(ls.drop_last(), width);
        let acc = wrap_lines(ls.drop_last(), width);
        let ws = split_words(ls.last());
        lemma_words_ok(ls.last());
        let st0: WrapState = (acc, Seq::empty(), 0);
        let g0: GroupState = (Seq::empty(), Seq::empty());
        assert(acc + g0.0.map_values(|ws: Seq<Seq<char>>| join_words(ws)) =~= acc);
        lemma_group_words(st0, g0, acc, ws, width);
        let st = wrap_words(st0, ws, width);
        let g = group_words(g0, ws, width);
        assert(st.0.push(st.1) =~= acc + g.0.push(g.1).map_values(|ws: Seq<Seq<char>>| join_words(ws)));
        assert forall|i: int| 0 <= i < ls.len() implies concat_groups(#[trigger] line_groups(ls[i], width))
            == split_words(ls[i]) by {
            if i < ls.len() - 1 {
                assert(ls[i] == ls.drop_last()[i]);
            } else {
                lemma_group_words_concat(g0, ws, width);
                let e: Seq<Seq<Seq<char>>> = Seq::empty();
                assert(g0.0.push(g0.1) =~= seq![Seq::<Seq<char>>::empty()]);
                assert(seq![Seq::<Seq<char>>::empty()].drop_last() =~= e);
                assert(concat_groups(e) =~= Seq::<Seq<char>>::empty());
                assert(concat_groups(seq![Seq::<Seq<char>>::empty()]) =~= Seq::<Seq<char>>::empty());
                assert(Seq::<Seq<char>>::empty() + ws =~= ws);
            }
        }
    }
}

/// Every line of a wrapped message is words of the message joined by single
/// spaces, fitting the width (at least 1) unless it is a single word.
pub proof fn lemma_wrap_fits(message: Seq<char>, width: u16)
    ensures
        forall|i: int| 0 <= i < wrap_spec(message, width).len() ==> line_fits(
            #[trigger] wrap_spec(message, width)[i],
            if width < 1 {
                1
            } else {
                width as int
            },
        ),
{
    let w: int = if width < 1 {
        1
    } else {
        width as int
    };
    lemma_wrap_lines_fit(split_lines(message), w);
    if wrap_lines(split_lines(message), w).len() == 0 {
        let e: Seq<Seq<char>> = Seq::empty();
        assert(join_words(e) =~= Seq::<char>::empty());
        assert(good_group(e, w));
        assert(line_fits(wrap_spec(message, width)[0], w));
    }
}

/// A wrapped message has at least one line, and at least as many as the
/// message has lines.
pub proof fn lemma_wrap_spec_lines(message: Seq<char>, width: u16)
    ensures
        wrap_spec(message, width).len() >= 1,
        wrap_spec(message, width).len() >= split_lines(message).len(),
{
    let w: int = if width < 1 {
        1
    } else {
        width as int
    };
    lemma_wrap_lines_grows(split_lines(message), w);
}

/// The message wrapped to `width` columns (at least 1): words greedily
/// filled per line of the message, never split; at least one line.
pub open spec fn wrap_spec(message: Seq<char>, width: u16) -> Seq<Seq<char>> {
    let w: int = if width < 1 {
        1
    } else {
        width as int
    };
    let r = wrap_lines(split_lines(message), w);
    if r.len() == 0 {
        seq![Seq::empty()]
    } else {
        r
    }
}

fn append_chars(s: &mut String, t: &String)
    ensures
        final(s)@ == old(s)@ + t@,
{
    crate::text::push_all(s, t.as_str());
}

/// Wrap `message` to `width` columns (see [`wrap_spec`]).
pub fn wrap_message_lines(message: &str, width: u16) -> (r: Vec<String>)
    ensures
        r.deep_view() == wrap_spec(message@, width),
{
    let w: usize = if width < 1 {
        1
    } else {
        width as usize
    };
    let chars = chars_of(message);
    let ls = lines_of(&chars);
    let ghost lsv = split_lines(message@);
    let mut wrapped: Vec<String> = Vec::new();
    let mut li: usize = 0;
    while li < ls.len()
        invariant
            ls@.len() == lsv.len(),
            forall|j: int| 0 <= j < ls@.len() ==> (#[trigger] ls@[j])@ == lsv[j],
            1 <= w <= u16::MAX,
            0 <= li <= ls.len(),
            wrapped.deep_view() == wrap_lines(lsv.take(li as int), w as int),
        decreases ls.len() - li,
    {
        assert(lsv.take(li + 1).drop_last() =~= lsv.take(li as int));
        let words = words_of(&ls[li]);
        let ghost wsv = words.deep_view();
        proof {
            lemma_words_nonempty(ls@[li as int]@);
        }
        let ghost acc0 = wrapped.deep_view();
        let mut current = String::new();
        let mut current_width: usize = 0;
        let mut k: usize = 0;
        while k < words.len()
            invariant
                wsv == words.deep_view(),
                1 <= w <= u16::MAX,
                0 <= k <= words.len(),
                current_width <= u16::MAX,
                current@.len() == 0 ==> current_width == 0,
                forall|j: int| 0 <= j < wsv.len() ==> (#[trigger] wsv[j]).len() > 0,
                (wrapped.deep_view(), current@, current_width as int) == wrap_words(
                    (acc0, Seq::empty(), 0),
                    wsv.take(k as int),
                    w as int,
                ),
            decreases words.len() - k,
        {
            assert(wsv.take(k + 1).drop_last() =~= wsv.take(k as int));
            let word = &words[k];
            assert(wsv[k as int].len() > 0);
            let word_w = display_width(word.as_str()) as usize;
            let nonempty = !current.as_str().is_empty();
            let sep: usize = if nonempty {
                1
            } else {
                0
            };
            if current_width + sep + word_w > w && nonempty {
                let ghost prev = wrapped.deep_view();
                let line = current;
                wrapped.push(line);
                assert(wrapped.deep_view() =~= prev.push(line@));
                current = String::new();
                current_width = 0;
            }
            if !current.as_str().is_empty() {
                current.push(' ');
                current_width += 1;
            }
            append_chars(&mut current, word);
            current_width += word_w;
            k += 1;
        }
        assert(wsv.take(words.len() as int) =~= wsv);
        let ghost prev = wrapped.deep_view();
        wrapped.push(current);
        assert(wrapped.deep_view() =~= prev.push(current@));
        li += 1;
    }
    assert(lsv.take(ls.len() as int) =~= lsv);
    if wrapped.len() == 0 {
        wrapped.push(String::new());
        assert(wrapped.deep_view() =~= seq![Seq::<char>::empty()]);
    }
    wrapped
}


// ─── Placement ─────────────────────────────────────────────

/// Widest toast.
pub const TOAST_MAX_WIDTH: u16 = 72;

/// Narrowest toast.
pub const TOAST_MIN_WIDTH: u16 = 28;

/// Lowest toast.
pub const TOAST_MIN_HEIGHT: u16 = 5;

pub open spec fn min_u16(a: u16, b: u16) -> u16 {
    if a < b {
        a
    } else {
        b
    }
}

pub open spec fn max_u16(a: u16, b: u16) -> u16 {
    if a > b {
        a
    } else {
        b
    }
}

pub open spec fn sat_sub(a: u16, b: u16) -> u16 {
    if a >= b {
        (a - b) as u16
    } else {
        0
    }
}

pub open spec fn sat_add(a: u16, b: u16) -> u16 {
    if a + b > u16::MAX {
        u16::MAX
    } else {
        (a + b) as u16
    }
}

/// A `width` x `height` rectangle centred in `area` (each dimension at most
/// the area's).
pub open spec fn centered_fixed_spec(width: u16, height: u16, area: Area) -> Area {
    let w = min_u16(width, area.width);
    let h = min_u16(height, area.height);
    let x = (area.x + sat_sub(area.width, w) / 2) as u16;
    let y = (area.y + sat_sub(area.height, h) / 2) as u16;
    Area {
        x,
        y,
        width: if w > u16::MAX - x {
            (u16::MAX - x) as u16
        } else {
            w
        },
        height: if h > u16::MAX - y {
            (u16::MAX - y) as u16
        } else {
            h
        },
    }
}

/// Whether `r` lies within `area`.
pub open spec fn inside(r: Area, area: Area) -> bool {
    &&& area.x <= r.x
    &&& r.x + r.width <= area.x + area.width
    &&& area.y <= r.y
    &&& r.y + r.height <= area.y + area.height
}

/// A fixed-size rectangle centred in an area stays inside it, and is as
/// large as asked where the area allows.
pub proof fn lemma_centered_fixed_inside(width: u16, height: u16, area: Area)
    requires
        area_wf(area),
    ensures
        inside(centered_fixed_spec(width, height, area), area),
        centered_fixed_spec(width, height, area).width == min_u16(width, area.width),
        centered_fixed_spec(width, height, area).height == min_u16(height, area.height),
{
}

/// The band for a wrapped message stays inside a non-empty area (an area of
/// height 0 still gets a one-line band).
pub proof fn lemma_text_band_inside(area: Area, message: Seq<char>, width: u16)
    requires
        area_wf(area),
        area.height >= 1,
    ensures
        inside(vcentered_spec(area, message, width), area),
        vcentered_spec(area, message, width).height >= 1,
{
}

/// Toasts stay inside the content area.
pub proof fn lemma_toast_inside(content: Area, message: Seq<char>)
    requires
        area_wf(content),
    ensures
        inside(toast_spec(content, message), content),
{
}

/// A `width` x `height` rectangle centred in `area`.
pub fn centered_rect_fixed(width: u16, height: u16, area: Area) -> (r: Area)
    requires
        area_wf(area),
    ensures
        r == centered_fixed_spec(width, height, area),
        area_wf(r),
{
    let width = if width < area.width {
        width
    } else {
        area.width
    };
    let height = if height < area.height {
        height
    } else {
        area.height
    };
    let x = area.x + (area.width.saturating_sub(width)) / 2;
    let y = area.y + (area.height.saturating_sub(height)) / 2;
    rect_new(x, y, width, height)
}

/// The middle area that `ratatui::layout::Layout::split` makes of the
/// rectangle `area` (x, y, width, height) with the constraints
/// `Percentage(outer)`, `Percentage(middle)`, `Percentage(outer)`, stacked
/// vertically or side by side.
pub uninterp spec fn layout_middle(vertical: bool, outer: u16, middle: u16, area: (u16, u16, u16, u16)) -> (
    u16,
    u16,
    u16,
    u16,
);

/// `Layout::default().direction(..).constraints([Percentage(outer),
/// Percentage(middle), Percentage(outer)]).split(area)[1]`; the solver's
/// result is named, not described.
#[verifier::external_body]
fn split_middle(vertical: bool, outer: u16, middle: u16, area: Area) -> (r: Area)
    ensures
        (r.x, r.y, r.width, r.height) == layout_middle(
            vertical,
            outer,
            middle,
            (area.x, area.y, area.width, area.height),
        ),
{
    let direction = if vertical { Direction::Vertical } else { Direction::Horizontal };
    let rect = Rect { x: area.x, y: area.y, width: area.width, height: area.height };
    let rects = Layout::default().direction(direction).constraints(
        [Constraint::Percentage(outer), Constraint::Percentage(middle), Constraint::Percentage(outer)],
    ).split(rect);
    Area { x: rects[1].x, y: rects[1].y, width: rects[1].width, height: rects[1].height }
}

/// The rectangle `percent_x`% wide and `percent_y`% high centred in `area`:
/// the middle row of a vertical split, then the middle column of that.
pub open spec fn centered_spec(percent_x: u16, percent_y: u16, area: Area) -> Area {
    let row = layout_middle(
        true,
        ((100 - percent_y) / 2) as u16,
        percent_y,
        (area.x, area.y, area.width, area.height),
    );
    let cell = layout_middle(false, ((100 - percent_x) / 2) as u16, percent_x, row);
    Area { x: cell.0, y: cell.1, width: cell.2, height: cell.3 }
}

/// A rectangle `percent_x`% wide and `percent_y`% high centred in `area`.
pub fn centered_rect(percent_x: u16, percent_y: u16, area: Area) -> (r: Area)
    requires
        percent_x <= 100,
        percent_y <= 100,
    ensures
        r == centered_spec(percent_x, percent_y, area),
{
    let row = split_middle(true, (100 - percent_y) / 2, percent_y, area);
    split_middle(false, (100 - percent_x) / 2, percent_x, row)
}

/// The width of the loading box for `message`: its display width plus 8,
/// within 28..=72.
pub open spec fn loading_width(message: Seq<char>) -> u16 {
    let w = sat_add(display_width_spec(message), 8);
    if w < TOAST_MIN_WIDTH {
        TOAST_MIN_WIDTH
    } else if w > TOAST_MAX_WIDTH {
        TOAST_MAX_WIDTH
    } else {
        w
    }
}

/// Where the loading box for `message` is drawn: [`loading_width`] wide,
/// 5 high, centred on `screen`.
pub fn loading_rect(screen: Area, message: &str) -> (r: Area)
    requires
        area_wf(screen),
    ensures
        r == centered_fixed_spec(loading_width(message@), TOAST_MIN_HEIGHT, screen),
{
    let w = display_width(message).saturating_add(8);
    let width = if w < TOAST_MIN_WIDTH {
        TOAST_MIN_WIDTH
    } else if w > TOAST_MAX_WIDTH {
        TOAST_MAX_WIDTH
    } else {
        w
    };
    centered_rect_fixed(width, TOAST_MIN_HEIGHT, screen)
}

/// `n` spaces.
pub open spec fn spaces(n: int) -> Seq<char> {
    Seq::new(if n < 0 { 0nat } else { n as nat }, |i: int| ' ')
}

/// The text of a help section heading: the title indented by two spaces.
pub fn help_section_text(title: &str) -> (r: String)
    ensures
        r@ == "  "@ + title@,
{
    let mut r = crate::text::owned("  ");
    crate::text::push_all(&mut r, title);
    r
}

/// The key column of a help item: indented by four spaces and padded with
/// spaces to 14 characters (`format!("    {key:<14}")`).
pub fn help_item_key(key: &str) -> (r: String)
    ensures
        r@ == "    "@ + key@ + spaces(14 - key@.len()),
{
    let mut r = crate::text::owned("    ");
    crate::text::push_all(&mut r, key);
    let n = crate::text::chars_of(key).len();
    let mut k = n;
    while k < 14
        invariant
            n == key@.len(),
            n <= k <= 14 || (n > 14 && k == n),
            r@ == "    "@ + key@ + spaces(k - n),
        decreases 14 - k,
    {
        let ghost before = r@;
        r.push(' ');
        assert(spaces(k + 1 - n) =~= spaces(k - n).push(' '));
        k += 1;
    }
    proof {
        if n >= 14 {
            assert(spaces(14 - n) =~= spaces(0));
        }
    }
    r
}

/// What a piece of a key-hint bar is.
#[derive(Clone, Copy, Debug, PartialEq, Eq, Structural)]
pub enum KeyBarPart {
    /// The two spaces between hints.
    Gap,
    /// A key, followed by a space.
    Key,
    /// What the key does.
    Desc,
}

impl DeepView for KeyBarPart {
    type V = KeyBarPart;

    open spec fn deep_view(&self) -> KeyBarPart {
        *self
    }
}

pub type KeyBarSpans = Seq<(Seq<char>, KeyBarPart)>;

/// The pieces of a key-hint bar for `(key, description)` hints, in order:
/// `"{key} "` then the description, hints separated by two spaces.
pub open spec fn key_bar_spec(items: Seq<(Seq<char>, Seq<char>)>) -> KeyBarSpans
    decreases items.len(),
{
    if items.len() == 0 {
        Seq::empty()
    } else {
        let prev = key_bar_spec(items.drop_last());
        let (k, d) = items.last();
        let gap: KeyBarSpans = if items.len() > 1 {
            seq![("  "@, KeyBarPart::Gap)]
        } else {
            Seq::empty()
        };
        prev + gap + seq![(k + seq![' '], KeyBarPart::Key), (d, KeyBarPart::Desc)]
    }
}

/// The pieces of a key-hint bar (see [`key_bar_spec`]).
pub fn key_bar_spans(items: &Vec<(String, String)>) -> (r: Vec<(String, KeyBarPart)>)
    ensures
        r.deep_view() == key_bar_spec(items.deep_view()),
{
    let ghost iv = items.deep_view();
    let mut r: Vec<(String, KeyBarPart)> = Vec::new();
    let mut i: usize = 0;
    while i < items.len()
        invariant
            iv == items.deep_view(),
            0 <= i <= items.len(),
            r.deep_view() == key_bar_spec(iv.take(i as int)),
        decreases items.len() - i,
    {
        assert(iv.take(i + 1).drop_last() =~= iv.take(i as int));
        let ghost prev = r.deep_view();
        let ghost k = iv[i as int].0;
        let ghost d = iv[i as int].1;
        let ghost gap: KeyBarSpans = if i > 0 {
            seq![("  "@, KeyBarPart::Gap)]
        } else {
            Seq::empty()
        };
        if i > 0 {
            r.push((crate::text::owned("  "), KeyBarPart::Gap));
        }
        assert(r.deep_view() =~= prev + gap);
        let mut key = items[i].0.clone();
        key.push(' ');
        assert(key@ =~= k + seq![' ']);
        let ghost mid = r.deep_view();
        r.push((key, KeyBarPart::Key));
        assert(r.deep_view() =~= mid.push((k + seq![' '], KeyBarPart::Key)));
        let desc = items[i].1.clone();
        let ghost mid2 = r.deep_view();
        r.push((desc, KeyBarPart::Desc));
        assert(r.deep_view() =~= mid2.push((d, KeyBarPart::Desc)));
        assert(r.deep_view() =~= prev + gap + seq![(k + seq![' '], KeyBarPart::Key), (d, KeyBarPart::Desc)]);
        i += 1;
    }
    assert(iv.take(items.len() as int) =~= iv);
    r
}

/// Number of lines of the message wrapped to `width`, as a `u16`
/// (truncated like `as u16`).
pub open spec fn wrapped_count(message: Seq<char>, width: u16) -> u16 {
    wrap_spec(message, width).len() as u16
}

/// The full-width band of `area`, vertically centred, tall enough for the
/// message wrapped to `width` (at least one line, at most the area).
pub open spec fn vcentered_spec(area: Area, message: Seq<char>, width: u16) -> Area {
    let lines = wrapped_count(message, max_u16(width, 1));
    let height = max_u16(min_u16(lines, area.height), 1);
    let y = (area.y + sat_sub(area.height, height) / 2) as u16;
    Area {
        x: area.x,
        y,
        width: if area.width > u16::MAX - area.x {
            (u16::MAX - area.x) as u16
        } else {
            area.width
        },
        height: if height > u16::MAX - y {
            (u16::MAX - y) as u16
        } else {
            height
        },
    }
}

/// The band of `area` where a wrapped message is drawn vertically centred.
pub fn vertically_centered_text(area: Area, message: &str, width: u16) -> (r: Area)
    requires
        area_wf(area),
    ensures
        r == vcentered_spec(area, message@, width),
{
    let lines_v = wrap_message_lines(message, if width > 1 {
        width
    } else {
        1
    });
    #[verifier::truncate]
    let lines = (lines_v.len() as u16);
    let h0 = if lines < area.height {
        lines
    } else {
        area.height
    };
    let height = if h0 > 1 {
        h0
    } else {
        1
    };
    let y = area.y + (area.height.saturating_sub(height)) / 2;
    rect_new(area.x, y, area.width, height)
}

/// The widest line of the message in display columns (0 for no lines).
pub open spec fn max_line_width(ls: Seq<Seq<char>>) -> u16
    decreases ls.len(),
{
    if ls.len() == 0 {
        0
    } else {
        max_u16(max_line_width(ls.drop_last()), display_width_spec(ls.last()))
    }
}

/// Where a toast goes in `content`: as wide as its widest line plus 8
/// (within 28..=72 and the content width less 4, at least 1), as tall as its
/// wrapped lines plus 2 (at least 5, at most the content height less 4, at
/// least 1), centred.
pub open spec fn toast_spec(content: Area, message: Seq<char>) -> Area {
    let max_width = {
        let m = sat_sub(content.width, 4);
        if m < 1 {
            1
        } else if m > TOAST_MAX_WIDTH {
            TOAST_MAX_WIDTH
        } else {
            m
        }
    };
    let min_width = min_u16(TOAST_MIN_WIDTH, max_width);
    let cw = sat_add(max_line_width(split_lines(message)), 8);
    let width = if cw < min_width {
        min_width
    } else if cw > max_width {
        max_width
    } else {
        cw
    };
    let inner_width = max_u16(sat_sub(width, 2), 1);
    let wrapped = wrapped_count(message, inner_width);
    let max_height = max_u16(sat_sub(content.height, 4), 1);
    let min_height = min_u16(TOAST_MIN_HEIGHT, max_height);
    let height = min_u16(max_u16(sat_add(wrapped, 2), min_height), max_height);
    centered_fixed_spec(width, height, content)
}

/// The columns a toast leaves for text: its width less the two border
/// columns, at least one.
pub open spec fn toast_inner_width(r: Area) -> u16 {
    if r.width > 2 {
        (r.width - 2) as u16
    } else {
        1
    }
}

/// Where the content area leaves room (the message's lines, wrapped to the
/// toast's inner width, plus the two border rows fit within the content
/// height less 4), the toast is tall enough to show every wrapped line, and
/// no taller than those lines plus the borders or the minimum toast height.
pub proof fn lemma_toast_shows_every_line(content: Area, message: Seq<char>)
    requires
        area_wf(content),
        wrap_spec(message, toast_inner_width(toast_spec(content, message))).len() + 6
            <= content.height,
    ensures
        toast_spec(content, message).height >= wrap_spec(
            message,
            toast_inner_width(toast_spec(content, message)),
        ).len() + 2,
        toast_spec(content, message).height <= wrap_spec(
            message,
            toast_inner_width(toast_spec(content, message)),
        ).len() + 2 || toast_spec(content, message).height <= TOAST_MIN_HEIGHT,
{
    lemma_centered_fixed_inside(0, 0, content);
}

/// Where a toast with `message` is drawn within `content`.
pub fn toast_rect(content: Area, message: &str) -> (r: Area)
    requires
        area_wf(content),
    ensures
        r == toast_spec(content, message@),
{
    let m0 = content.width.saturating_sub(4);
    let max_width = if m0 < 1 {
        1
    } else if m0 > TOAST_MAX_WIDTH {
        TOAST_MAX_WIDTH
    } else {
        m0
    };
    let min_width = if TOAST_MIN_WIDTH < max_width {
        TOAST_MIN_WIDTH
    } else {
        max_width
    };
    let chars = chars_of(message);
    let ls = lines_of(&chars);
    let ghost lsv = split_lines(message@);
    let mut widest: u16 = 0;
    let mut i: usize = 0;
    while i < ls.len()
        invariant
            ls@.len() == lsv.len(),
            forall|j: int| 0 <= j < ls@.len() ==> (#[trigger] ls@[j])@ == lsv[j],
            0 <= i <= ls.len(),
            widest == max_line_width(lsv.take(i as int)),
        decreases ls.len() - i,
    {
        assert(lsv.take(i + 1).drop_last() =~= lsv.take(i as int));
        let line = string_of(&ls[i]);
        let w = display_width(line.as_str());
        if w > widest {
            widest = w;
        }
        i += 1;
    }
    assert(lsv.take(ls.len() as int) =~= lsv);
    let cw = widest.saturating_add(8);
    let width = if cw < min_width {
        min_width
    } else if cw > max_width {
        max_width
    } else {
        cw
    };
    let iw = width.saturating_sub(2);
    let inner_width = if iw > 1 {
        iw
    } else {
        1
    };
    let wrapped_v = wrap_message_lines(message, inner_width);
    #[verifier::truncate]
    let wrapped = (wrapped_v.len() as u16);
    let mh = content.height.saturating_sub(4);
    let max_height = if mh > 1 {
        mh
    } else {
        1
    };
    let min_height = if TOAST_MIN_HEIGHT < max_height {
        TOAST_MIN_HEIGHT
    } else {
        max_height
    };
    let h1 = wrapped.saturating_add(2);
    let h2 = if h1 > min_height {
        h1
    } else {
        min_height
    };
    let height = if h2 < max_height {
        h2
    } else {
        max_height
    };
    centered_rect_fixed(width, height, content)
}

} // verus!
