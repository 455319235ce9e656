//! Placing a block of text in the middle of the terminal.
use vstd::prelude::*;

verus! {

/// The lines of `s` after `cur`, split at each newline as `str::split('\n')`
/// does: `n` newlines give `n + 1` lines.
pub open spec fn split_from(s: Seq<char>, cur: Seq<char>) -> Seq<Seq<char>>
    decreases s.len(),
{
    if s.len() == 0 {
        seq![cur]
    } else if s[0] == '\n' {
        seq![cur] + split_from(s.subrange(1, s.len() as int), Seq::empty())
    } else {
        split_from(s.subrange(1, s.len() as int), cur.push(s[0]))
    }
}

pub open spec fn split_lines(s: Seq<char>) -> Seq<Seq<char>> {
    split_from(s, Seq::empty())
}

pub open spec fn views(lines: Seq<String>) -> Seq<Seq<char>> {
    lines.map_values(|l: String| l@)
}

/// The length of the longest line, in characters.
pub open spec fn max_len(lines: Seq<Seq<char>>) -> nat
    decreases lines.len(),
{
    if lines.len() == 0 {
        0
    } else {
        let rest = max_len(lines.drop_last());
        if lines.last().len() > rest {
            lines.last().len()
        } else {
            rest
        }
    }
}

/// First cell of a span of `extent` cells centred in `window` cells, never below 1.
pub open spec fn origin(window: int, extent: int) -> int {
    let v = window / 2 - extent / 2;
    if v < 1 {
        1
    } else {
        v
    }
}

/// Cell `offset` places after the origin of a centred span, kept within the
/// positions a cursor can take (at most the largest `u16`).
pub open spec fn centered(window: int, extent: int, offset: int) -> int {
    let v = origin(window, extent) + offset;
    if v > u16::MAX {
        u16::MAX as int
    } else {
        v
    }
}

/// The lines of a centred block go on consecutive rows from its clamped origin,
/// in order, as long as the rows exist.
pub proof fn lemma_lines_consecutive(window: u16, extent: nat, index: nat)
    requires
        origin(window as int, extent as int) + index + 1 <= u16::MAX,
    ensures
        centered(window as int, extent as int, index as int) == origin(window as int, extent as int)
            + index,
        centered(window as int, extent as int, index + 1 as int) == centered(
            window as int,
            extent as int,
            index as int,
        ) + 1,
        origin(window as int, extent as int) >= 1,
{
}

proof fn lemma_subrange_extend(s: Seq<char>, start: int, i: int)
    requires
        0 <= start <= i < s.len(),
    ensures
        s.subrange(start, i).push(s[i]) == s.subrange(start, i + 1),
{
    assert(s.subrange(start, i).push(s[i]) =~= s.subrange(start, i + 1));
}

/// Splits `text` into its lines at each newline.
pub fn text_lines(text: &str) -> (r: Vec<String>)
    ensures
        views(r@) == split_lines(text@),
{
    let n = text.unicode_len();
    let mut lines: Vec<String> = Vec::new();
    let mut start: usize = 0;
    let mut i: usize = 0;
    assert(text@.subrange(0, n as int) =~= text@);
    assert(text@.subrange(0, 0) =~= Seq::<char>::empty());
    while i < n
        invariant
            n == text@.len(),
            start <= i <= n,
            split_lines(text@) == views(lines@) + split_from(
                text@.subrange(i as int, n as int),
                text@.subrange(start as int, i as int),
            ),
        decreases n - i,
    {
        let ghost s = text@.subrange(i as int, n as int);
        let ghost cur = text@.subrange(start as int, i as int);
        assert(s.subrange(1, s.len() as int) =~= text@.subrange(i + 1, n as int));
        let c = text.get_char(i);
        if c == '\n' {
            let line = String::from_str(text.substring_char(start, i));
            let ghost before = lines@;
            lines.push(line);
            assert(views(lines@) =~= views(before) + seq![cur]);
            assert(text@.subrange(i + 1, i + 1) =~= Seq::<char>::empty());
            assert(views(before) + (seq![cur] + split_from(
                text@.subrange(i + 1, n as int),
                Seq::empty(),
            )) =~= views(lines@) + split_from(text@.subrange(i + 1, n as int), Seq::empty()));
            start = i + 1;
        } else {
            proof {
                lemma_subrange_extend(text@, start as int, i as int);
            }
        }
        i = i + 1;
    }
    let ghost before = lines@;
    let last = String::from_str(text.substring_char(start, n));
    lines.push(last);
    assert(views(lines@) =~= views(before) + seq![text@.subrange(start as int, n as int)]);
    lines
}

/// The width of a block of lines: the length of its longest line, in characters.
pub fn block_width(lines: &Vec<String>) -> (r: usize)
    ensures
        r == max_len(views(lines@)),
{
    let mut width: usize = 0;
    let mut i: usize = 0;
    while i < lines.len()
        invariant
            i <= lines@.len(),
            width == max_len(views(lines@.subrange(0, i as int))),
        decreases lines@.len() - i,
    {
        let len = lines[i].as_str().unicode_len();
        assert(views(lines@.subrange(0, i + 1)).drop_last() =~= views(lines@.subrange(0, i as int)));
        if len > width {
            width = len;
        }
        i = i + 1;
    }
    assert(lines@.subrange(0, lines@.len() as int) =~= lines@);
    width
}

/// Where line `index` of a block of `line_count` lines, `text_width` characters
/// wide, starts so that the block sits in the middle of a `window_width` by
/// `window_height` terminal. Positions count from 1 and never fall below it,
/// even when the block is larger than the window.
pub fn line_origin(
    window_width: u16,
    window_height: u16,
    text_width: usize,
    line_count: usize,
    index: usize,
) -> (r: (u16, u16))
    ensures
        r.0 == centered(window_width as int, text_width as int, 0),
        r.1 == centered(window_height as int, line_count as int, index as int),
{
    (center(window_width, text_width, 0), center(window_height, line_count, index))
}

fn center(window: u16, extent: usize, offset: usize) -> (r: u16)
    ensures
        r == centered(window as int, extent as int, offset as int),
{
    let half_window = (window / 2) as usize;
    let half_extent = extent / 2;
    let start: usize = if half_window > half_extent + 1 {
        half_window - half_extent
    } else {
        1
    };
    if offset > u16::MAX as usize - start {
        u16::MAX
    } else {
        (start + offset) as u16
    }
}

} // verus!
