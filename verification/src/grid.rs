use vstd::prelude::*;

use crate::config::Config;

verus! {

/// Flag: a button shows the item's icon.
pub const SHOW_ICON: u32 = 0b01;

/// Flag: a button shows the item's label.
pub const SHOW_LABEL: u32 = 0b10;

#[verifier::external_type_specification]
#[verifier::external_body]
pub struct ExMatch(sublime_fuzzy::Match);

/// Names what `sublime_fuzzy::best_match` finds for `query` in `target`: the
/// indices of the matched characters of `target`, or `None`.
pub uninterp spec fn fuzzy_best_match(query: Seq<char>, target: Seq<char>) -> Option<Seq<usize>>;

/// Names what a `sublime_fuzzy::Match` holds: the indices of the matched
/// characters of the target.
pub uninterp spec fn fuzzy_match_indices(m: sublime_fuzzy::Match) -> Seq<usize>;

/// Characters with the Unicode `White_Space` property, those for which
/// `char::is_whitespace` holds.
pub open spec fn is_white_space(c: char) -> bool {
    let v = c as u32;
    ||| 0x09 <= v <= 0x0d
    ||| v == 0x20
    ||| v == 0x85
    ||| v == 0xa0
    ||| v == 0x1680
    ||| 0x2000 <= v <= 0x200a
    ||| v == 0x2028
    ||| v == 0x2029
    ||| v == 0x202f
    ||| v == 0x205f
    ||| v == 0x3000
}

/// The indices are strictly increasing and all below `len`.
pub open spec fn increasing_below(ix: Seq<usize>, len: nat) -> bool {
    &&& forall|k1: int, k2: int| 0 <= k1 < k2 < ix.len() ==> ix[k1] < ix[k2]
    &&& forall|k: int| 0 <= k < ix.len() ==> ix[k] < len
}

/// Calls `sublime_fuzzy::best_match`. Trusted: the match is the one that
/// the name above gives for both arguments; its indices are strictly
/// increasing character indices of `target` (the search only extends a match
/// with later occurrences); and there is none when `target` is empty or
/// `query` holds nothing but whitespace, which the search drops.
#[verifier::external_body]
fn best_match(query: &str, target: &str) -> (r: Option<sublime_fuzzy::Match>)
    ensures
        r is Some <==> fuzzy_best_match(query@, target@) is Some,
        r matches Some(m) ==> fuzzy_best_match(query@, target@) == Some(fuzzy_match_indices(m)),
        r matches Some(m) ==> increasing_below(fuzzy_match_indices(m), target@.len()),
        target@.len() == 0 ==> r is None,
        (forall|k: int| 0 <= k < query@.len() ==> is_white_space(#[trigger] query@[k])) ==> r
            is None,
{
    sublime_fuzzy::best_match(query, target)
}

/// Character `j` of the target is one of the matched characters `m`.
pub open spec fn is_marked(m: Seq<usize>, j: int) -> bool {
    exists|k: int| 0 <= k < m.len() && m[k] as int == j
}

/// Character `j` of `t`, preceded by `before` when it opens a run of
/// consecutive matched characters and followed by `after` when it closes one.
pub open spec fn highlight_piece(
    t: Seq<char>,
    m: Seq<usize>,
    before: Seq<char>,
    after: Seq<char>,
    j: int,
) -> Seq<char> {
    let opens = is_marked(m, j) && !is_marked(m, j - 1);
    let closes = is_marked(m, j) && !is_marked(m, j + 1);
    (if opens {
        before
    } else {
        Seq::empty()
    }) + seq![t[j]] + (if closes {
        after
    } else {
        Seq::empty()
    })
}

/// The first `n` characters of `t` with each run of matched characters
/// wrapped in `before` and `after`.
pub open spec fn highlight_prefix(
    t: Seq<char>,
    m: Seq<usize>,
    before: Seq<char>,
    after: Seq<char>,
    n: int,
) -> Seq<char>
    decreases n,
{
    if n <= 0 {
        Seq::empty()
    } else {
        highlight_prefix(t, m, before, after, n - 1) + highlight_piece(t, m, before, after, n - 1)
    }
}

/// `t` with each run of consecutive matched characters wrapped in `before`
/// and `after`.
pub open spec fn highlight(t: Seq<char>, m: Seq<usize>, before: Seq<char>, after: Seq<char>) -> Seq<
    char,
> {
    highlight_prefix(t, m, before, after, t.len() as int)
}

/// Calls `sublime_fuzzy::format_simple`. Trusted: for a match whose indices
/// are strictly increasing characters of `target`, the result is `target`
/// with each run of consecutive matched characters wrapped in `before` and
/// `after` (the function walks the runs of `continuous_matches` and copies
/// the characters between them).
#[verifier::external_body]
fn format_simple(m: &sublime_fuzzy::Match, target: &str, before: &str, after: &str) -> (r: String)
    requires
        increasing_below(fuzzy_match_indices(*m), target@.len()),
    ensures
        r@ == highlight(target@, fuzzy_match_indices(*m), before@, after@),
{
    sublime_fuzzy::format_simple(m, target, before, after)
}

/// The launcher grid: the labels of its items in order, the display flags,
/// the number of columns and the keyboard cursor as (column, row).
pub struct Grid {
    labels: Vec<String>,
    flags: u32,
    columns: u8,
    cursor: (usize, usize),
}

/// The mathematical value of a [`Grid`].
pub struct GridState {
    pub labels: Seq<Seq<char>>,
    pub flags: u32,
    pub columns: u8,
    pub cursor: (usize, usize),
}

impl View for Grid {
    type V = GridState;

    closed spec fn view(&self) -> GridState {
        GridState {
            labels: self.labels@.map_values(|s: String| s@),
            flags: self.flags,
            columns: self.columns,
            cursor: self.cursor,
        }
    }
}

/// Where a button is placed: the item's index and its cell.
#[derive(Clone, Copy, Debug, PartialEq, Eq)]
pub struct Placement {
    pub index: usize,
    pub column: usize,
    pub row: usize,
}

/// An item shown by a search: where its button goes and the text for it.
pub struct Shown {
    pub placement: Placement,
    pub label: String,
}

/// The buttons whose highlight a cursor move changes.
#[derive(Clone, Copy, Debug, PartialEq, Eq)]
pub struct CursorChange {
    /// The button that loses the highlight, if the old cursor is on one.
    pub hide: Option<usize>,
    /// The button that gains the highlight, if the new cursor is on one.
    pub show: Option<usize>,
}

impl GridState {
    /// The cursor is inside the grid: its column is a column, its row holds
    /// an item (or is the first row), and its button index fits in `usize`.
    pub open spec fn wf(self) -> bool {
        &&& self.columns > 0
        &&& self.cursor.0 < self.columns
        &&& (self.cursor.1 == 0 || self.cursor.1 < self.labels.len())
        &&& self.cursor.1 * self.columns + self.cursor.0 <= usize::MAX
    }

    /// The cursor can move: the grid is well formed, not empty, and small
    /// enough that every cell index below one row past the items fits.
    pub open spec fn ready(self) -> bool {
        &&& self.wf()
        &&& self.labels.len() > 0
        &&& (self.labels.len() + 1) * self.columns <= usize::MAX
    }

    /// The index of the button under the cursor, if there is one.
    pub open spec fn button_at_cursor(self) -> Option<usize> {
        let idx = self.cursor.1 * self.columns + self.cursor.0;
        if idx < self.labels.len() {
            Some(idx as usize)
        } else {
            None
        }
    }

    /// The cell that the cursor goes to when asked for (x, y): the cell of
    /// index `y * columns + x`, with its row capped at `labels.len() - 1`.
    pub open spec fn cursor_target(self, x: usize, y: usize) -> (usize, usize) {
        let c = self.columns as int;
        let idx = y * c + x;
        let row = idx / c;
        let max_row = self.labels.len() - 1;
        ((idx % c) as usize, (if row > max_row { max_row } else { row }) as usize)
    }

    /// The cursor moves only when both its column and its row change.
    pub open spec fn cursor_moves(self, x: usize, y: usize) -> bool {
        let t = self.cursor_target(x, y);
        self.cursor.0 != t.0 && self.cursor.1 != t.1
    }

    pub open spec fn with_cursor(self, cursor: (usize, usize)) -> GridState {
        GridState { cursor: cursor, ..self }
    }

    /// The state after asking for (x, y).
    pub open spec fn after_set_pos(self, x: usize, y: usize) -> GridState {
        if self.cursor_moves(x, y) {
            self.with_cursor(self.cursor_target(x, y))
        } else {
            self
        }
    }

    /// What asking for (x, y) reports.
    pub open spec fn set_pos_change(self, x: usize, y: usize) -> Option<CursorChange> {
        if self.cursor_moves(x, y) {
            Some(
                CursorChange {
                    hide: self.button_at_cursor(),
                    show: self.after_set_pos(x, y).button_at_cursor(),
                },
            )
        } else {
            None
        }
    }
}

/// Keyboard navigation over the buttons of a grid.
pub trait GridCursor {
    /// The cursor can be moved.
    spec fn cursor_ready(&self) -> bool;

    /// The cursor is inside the grid.
    spec fn cursor_wf(&self) -> bool;

    /// Moving left is defined: the cursor is in the first column, or it can
    /// be moved.
    spec fn accepts_left(&self) -> bool;

    /// Moving up is defined: the cursor is in the first row, or it can be
    /// moved.
    spec fn accepts_up(&self) -> bool;

    /// The cell (x, y) can be asked for.
    spec fn accepts_pos(&self, x: usize, y: usize) -> bool;

    /// Asks for the cell to the left of the cursor, if it is not in the first column.
    fn cursor_left(&mut self) -> (r: Option<CursorChange>)
        requires
            old(self).cursor_wf(),
            old(self).accepts_left(),
        ensures
            final(self).cursor_wf(),
            old(self).cursor_ready() ==> final(self).cursor_ready(),
    ;

    /// Asks for the cell to the right of the cursor.
    fn cursor_right(&mut self) -> (r: Option<CursorChange>)
        requires
            old(self).cursor_ready(),
        ensures
            final(self).cursor_ready(),
    ;

    /// Asks for the cell above the cursor, if it is not in the first row.
    fn cursor_up(&mut self) -> (r: Option<CursorChange>)
        requires
            old(self).cursor_wf(),
            old(self).accepts_up(),
        ensures
            final(self).cursor_wf(),
            old(self).cursor_ready() ==> final(self).cursor_ready(),
    ;

    /// Asks for the cell below the cursor.
    fn cursor_down(&mut self) -> (r: Option<CursorChange>)
        requires
            old(self).cursor_ready(),
        ensures
            final(self).cursor_ready(),
    ;

    /// The button whose highlight is removed.
    fn cursor_hide(&self) -> (r: Option<usize>)
        requires
            self.cursor_wf(),
    ;

    /// The button that is highlighted.
    fn cursor_show(&self) -> (r: Option<usize>)
        requires
            self.cursor_wf(),
    ;

    /// Asks for the cell (x, y), and reports the highlight to change if the
    /// cursor moves.
    fn cursor_set_pos(&mut self, x: usize, y: usize) -> (r: Option<CursorChange>)
        requires
            old(self).cursor_ready(),
            old(self).accepts_pos(x, y),
        ensures
            final(self).cursor_ready(),
    ;

    /// Asks for the cell of the button with this index.
    fn cursor_set_index(&mut self, index: usize) -> (r: Option<CursorChange>)
        requires
            old(self).cursor_ready(),
        ensures
            final(self).cursor_ready(),
    ;
}

/// Whether an item is shown while searching for `needle`.
pub open spec fn item_visible(label: Seq<char>, needle: Seq<char>) -> bool {
    needle.len() == 0 || fuzzy_best_match(needle, label) is Some
}

pub open spec fn highlight_open() -> Seq<char> {
    seq!['[', '[']
}

pub open spec fn highlight_close() -> Seq<char> {
    seq![']', ']']
}

/// The text given to a shown item: its label while the search text is
/// empty, otherwise its label with the matched characters wrapped in `[[`
/// and `]]`.
pub open spec fn item_text(label: Seq<char>, needle: Seq<char>) -> Seq<char> {
    if needle.len() == 0 {
        label
    } else {
        match fuzzy_best_match(needle, label) {
            Some(m) => highlight(label, m, highlight_open(), highlight_close()),
            None => label,
        }
    }
}

/// The indices below `n` of the items shown while searching for `needle`,
/// in increasing order.
pub open spec fn visible_indices(labels: Seq<Seq<char>>, needle: Seq<char>, n: int) -> Seq<usize>
    decreases n,
{
    if n <= 0 {
        Seq::empty()
    } else {
        let prev = visible_indices(labels, needle, n - 1);
        if item_visible(labels[n - 1], needle) {
            prev.push((n - 1) as usize)
        } else {
            prev
        }
    }
}

/// The cells of the items `indices`, filled row by row from the top left.
pub open spec fn placements_of(indices: Seq<usize>, columns: u8) -> Seq<Placement> {
    Seq::new(
        indices.len(),
        |k: int|
            Placement {
                index: indices[k],
                column: (k % (columns as int)) as usize,
                row: (k / (columns as int)) as usize,
            },
    )
}

/// `shown` is what a search for `needle` shows of the first `n` items of
/// `st`: the visible ones, placed in order, each with its text.
pub open spec fn shows_prefix(shown: Seq<Shown>, st: GridState, needle: Seq<char>, n: int) -> bool {
    let vis = visible_indices(st.labels, needle, n);
    &&& shown.map_values(|s: Shown| s.placement) == placements_of(vis, st.columns)
    &&& forall|k: int|
        0 <= k < shown.len() ==> #[trigger] shown[k].label@ == item_text(
            st.labels[vis[k] as int],
            needle,
        )
}

/// `shown` is what a search for `needle` shows of all items of `st`.
pub open spec fn shows(shown: Seq<Shown>, st: GridState, needle: Seq<char>) -> bool {
    shows_prefix(shown, st, needle, st.labels.len() as int)
}

/// All indices below `n`, in order.
pub open spec fn all_indices(n: nat) -> Seq<usize> {
    Seq::new(n, |i: int| i as usize)
}

/// Every placement lies inside the columns of the grid, and no two
/// placements share a cell.
pub proof fn lemma_placements_fill_distinct_cells(indices: Seq<usize>, columns: u8)
    requires
        columns > 0,
        indices.len() <= usize::MAX,
    ensures
        forall|k: int|
            0 <= k < indices.len() ==> #[trigger] placements_of(indices, columns)[k].column
                < columns,
        forall|k1: int, k2: int|
            0 <= k1 < indices.len() && 0 <= k2 < indices.len() && k1 != k2 ==> {
                let p1 = #[trigger] placements_of(indices, columns)[k1];
                let p2 = #[trigger] placements_of(indices, columns)[k2];
                p1.column != p2.column || p1.row != p2.row
            },
{
    let c = columns as int;
    assert forall|k: int| 0 <= k < indices.len() implies #[trigger] placements_of(
        indices,
        columns,
    )[k].column < columns by {
        assert(0 <= k % c < c) by (nonlinear_arith)
            requires
                c > 0,
                k >= 0,
        ;
    }
    assert forall|k1: int, k2: int|
        0 <= k1 < indices.len() && 0 <= k2 < indices.len() && k1 != k2 implies {
        let p1 = #[trigger] placements_of(indices, columns)[k1];
        let p2 = #[trigger] placements_of(indices, columns)[k2];
        p1.column != p2.column || p1.row != p2.row
    } by {
        assert(k1 == (k1 / c) * c + k1 % c && k2 == (k2 / c) * c + k2 % c) by (nonlinear_arith)
            requires
                c > 0,
        ;
        assert(0 <= k1 / c <= k1 && 0 <= k2 / c <= k2 && 0 <= k1 % c < c && 0 <= k2 % c < c)
            by (nonlinear_arith)
            requires
                c > 0,
                k1 >= 0,
                k2 >= 0,
        ;
        if k1 % c == k2 % c && k1 / c == k2 / c {
            assert(k1 == k2);
        }
    }
}

/// While the search text is empty every item is shown, under its own label,
/// at the cell that the grid gave it when it was built.
pub proof fn lemma_empty_search_shows_every_item(
    labels: Seq<Seq<char>>,
    needle: Seq<char>,
    n: int,
    columns: u8,
)
    requires
        needle.len() == 0,
        0 <= n,
    ensures
        visible_indices(labels, needle, n) == all_indices(n as nat),
        forall|i: int| 0 <= i < n ==> item_text(#[trigger] labels[i], needle) == labels[i],
        placements_of(visible_indices(labels, needle, n), columns) == placements_of(
            all_indices(n as nat),
            columns,
        ),
    decreases n,
{
    if n > 0 {
        lemma_empty_search_shows_every_item(labels, needle, n - 1, columns);
        assert(visible_indices(labels, needle, n) =~= all_indices(n as nat));
    }
}

/// The items shown for a search are exactly those below `n` that are
/// visible for it, each once, in their original order.
pub proof fn lemma_search_shows_exactly_the_matches(labels: Seq<Seq<char>>, needle: Seq<char>, n: int)
    requires
        0 <= n <= labels.len(),
        labels.len() <= usize::MAX,
    ensures
        forall|k: int|
            0 <= k < visible_indices(labels, needle, n).len() ==> {
                let i = #[trigger] visible_indices(labels, needle, n)[k];
                i < n && item_visible(labels[i as int], needle)
            },
        forall|k1: int, k2: int|
            0 <= k1 < k2 < visible_indices(labels, needle, n).len() ==> #[trigger] visible_indices(
                labels,
                needle,
                n,
            )[k1] < #[trigger] visible_indices(labels, needle, n)[k2],
        forall|i: int|
            0 <= i < n && item_visible(labels[i], needle) ==> #[trigger] visible_indices(
                labels,
                needle,
                n,
            ).contains(i as usize),
    decreases n,
{
    if n > 0 {
        lemma_search_shows_exactly_the_matches(labels, needle, n - 1);
        let prev = visible_indices(labels, needle, n - 1);
        let cur = visible_indices(labels, needle, n);
        if item_visible(labels[n - 1], needle) {
            assert(cur == prev.push((n - 1) as usize));
            assert forall|k: int| 0 <= k < cur.len() implies {
                let i = #[trigger] cur[k];
                i < n && item_visible(labels[i as int], needle)
            } by {
                if k < prev.len() {
                    assert(cur[k] == prev[k]);
                }
            }
            assert forall|k1: int, k2: int| 0 <= k1 < k2 < cur.len() implies #[trigger] cur[k1] < #[trigger] cur[k2] by {
                assert(cur[k1] == prev[k1]);
                if k2 < prev.len() {
                    assert(cur[k2] == prev[k2]);
                } else {
                    assert(prev[k1] < n - 1);
                }
            }
        } else {
            assert(cur == prev);
        }
        assert forall|i: int| 0 <= i < n && item_visible(labels[i], needle) implies #[trigger] cur.contains(
            i as usize,
        ) by {
            if i < n - 1 {
                assert(prev.contains(i as usize));
                let j = choose|j: int| 0 <= j < prev.len() && prev[j] == i as usize;
                assert(cur[j] == i as usize);
            } else {
                assert(cur[cur.len() - 1] == i as usize);
            }
        }
    }
}

/// Wherever the cursor is asked to go, it stays inside the grid: in one of
/// the columns, on a row that holds an item.
pub proof fn lemma_cursor_stays_in_grid(st: GridState, x: usize, y: usize)
    requires
        st.ready(),
        y * st.columns + x <= usize::MAX,
    ensures
        st.after_set_pos(x, y).ready(),
        st.after_set_pos(x, y).cursor.0 < st.columns,
        st.after_set_pos(x, y).cursor.1 < st.labels.len(),
{
    lemma_target_fits(st, x, y);
}

/// Moving the cursor left, up or down never moves it: such a move keeps
/// the row or the column, and the cursor only moves when both change.
pub proof fn lemma_left_up_down_keep_the_cursor(st: GridState)
    requires
        st.ready(),
    ensures
        st.cursor.0 > 0 ==> st.after_set_pos((st.cursor.0 - 1) as usize, st.cursor.1) == st,
        st.cursor.1 > 0 ==> st.after_set_pos(st.cursor.0, (st.cursor.1 - 1) as usize) == st,
        st.after_set_pos(st.cursor.0, (st.cursor.1 + 1) as usize) == st,
{
    let c = st.columns as int;
    let x = st.cursor.0 as int;
    let y = st.cursor.1 as int;
    if x > 0 {
        assert((y * c + (x - 1)) / c == y && (y * c + (x - 1)) % c == x - 1) by (nonlinear_arith)
            requires
                c > 0,
                0 < x < c,
                y >= 0,
        ;
    }
    if y > 0 {
        assert(((y - 1) * c + x) % c == x) by (nonlinear_arith)
            requires
                c > 0,
                0 <= x < c,
                y >= 1,
        ;
    }
    assert(((y + 1) * c + x) % c == x && y + 1 <= (st.labels.len() + 1) * c) by (nonlinear_arith)
        requires
            c > 0,
            0 <= x < c,
            0 <= y < st.labels.len(),
    ;
}

/// Asking for the cell of an item puts the cursor on that item's button
/// whenever the cursor moves.
pub proof fn lemma_set_index_targets_the_item(st: GridState, i: usize)
    requires
        st.ready(),
        i < st.labels.len(),
    ensures
        st.cursor_target(i % (st.columns as usize), i / (st.columns as usize)) == (
            i % (st.columns as usize),
            i / (st.columns as usize),
        ),
        st.cursor_moves(i % (st.columns as usize), i / (st.columns as usize)) ==> st.set_pos_change(
            i % (st.columns as usize),
            i / (st.columns as usize),
        )->0.show == Some(i),
{
    let c = st.columns as int;
    let n = st.labels.len() as int;
    let ii = i as int;
    assert((ii / c) * c + ii % c == ii && ii / c <= n - 1 && 0 <= ii % c < c) by (nonlinear_arith)
        requires
            c > 0,
            0 <= ii < n,
    ;
}

/// A search shows an item exactly when the search text is empty or
/// `sublime_fuzzy::best_match` finds the search text in the item's label,
/// wherever in the label the matched characters lie.
pub proof fn lemma_search_shows_the_fuzzy_matches(labels: Seq<Seq<char>>, needle: Seq<char>, n: int)
    requires
        0 <= n <= labels.len(),
        labels.len() <= usize::MAX,
    ensures
        forall|i: int|
            0 <= i < n ==> (#[trigger] visible_indices(labels, needle, n).contains(i as usize) <==> (
            needle.len() == 0 || fuzzy_best_match(needle, labels[i]) is Some)),
        forall|k: int|
            0 <= k < visible_indices(labels, needle, n).len() ==> #[trigger] visible_indices(
                labels,
                needle,
                n,
            )[k] < n,
{
    lemma_search_shows_exactly_the_matches(labels, needle, n);
    let vis = visible_indices(labels, needle, n);
    assert forall|i: int| 0 <= i < n implies (#[trigger] vis.contains(i as usize) <==> (
    needle.len() == 0 || fuzzy_best_match(needle, labels[i]) is Some)) by {
        if vis.contains(i as usize) {
            let k = choose|k: int| 0 <= k < vis.len() && vis[k] == i as usize;
            assert(vis[k] == i as usize);
            assert(item_visible(labels[vis[k] as int], needle));
        }
    }
}

/// The text of an item shown by a search: its label while the search text
/// is empty; otherwise its label with each run of the characters that
/// `sublime_fuzzy::best_match` matched wrapped in `[[` and `]]`.
pub proof fn lemma_shown_text(label: Seq<char>, needle: Seq<char>)
    ensures
        needle.len() == 0 ==> item_text(label, needle) == label,
        needle.len() > 0 ==> (fuzzy_best_match(needle, label) matches Some(m) ==> item_text(
            label,
            needle,
        ) == highlight(label, m, seq!['[', '['], seq![']', ']'])),
{
}

/// Asking for the cell (x, y) goes to index `y * columns + x`, that is to
/// column `index % columns` of row `index / columns`, the row capped at the
/// last item's index. The cursor moves there exactly when both its column
/// and its row differ from the target's, in whichever direction; the change
/// then reports the old cursor's button as hidden and the target's button
/// as shown (each when it holds an item). Otherwise nothing changes.
pub proof fn lemma_set_pos_moves_when_column_and_row_change(st: GridState, x: usize, y: usize)
    requires
        st.ready(),
        y * st.columns + x <= usize::MAX,
    ensures
        ({
            let c = st.columns as int;
            let n = st.labels.len() as int;
            let idx = y * c + x;
            let col = idx % c;
            let row = if idx / c > n - 1 {
                n - 1
            } else {
                idx / c
            };
            let old_idx = st.cursor.1 * c + st.cursor.0;
            let new_idx = row * c + col;
            if col != st.cursor.0 && row != st.cursor.1 {
                &&& st.after_set_pos(x, y) == GridState { cursor: (col as usize, row as usize), ..st }
                &&& st.set_pos_change(x, y) == Some(
                    CursorChange {
                        hide: if old_idx < n {
                            Some(old_idx as usize)
                        } else {
                            None
                        },
                        show: if new_idx < n {
                            Some(new_idx as usize)
                        } else {
                            None
                        },
                    },
                )
            } else {
                &&& st.after_set_pos(x, y) == st
                &&& st.set_pos_change(x, y) is None
            }
        }),
{
    let c = st.columns as int;
    let n = st.labels.len() as int;
    let idx = y * c + x;
    assert(0 <= idx % c < c && idx / c >= 0) by (nonlinear_arith)
        requires
            c > 0,
            idx >= 0,
    ;
}

/// Asking for the cell of item `i` from a cursor in another column and
/// another row moves the cursor onto item `i`'s cell, in whichever
/// direction, and reports the old button as hidden and button `i` as shown.
/// From the same column or the same row nothing changes.
pub proof fn lemma_set_index_moves_to_the_item(st: GridState, i: usize)
    requires
        st.ready(),
        i < st.labels.len(),
    ensures
        ({
            let c = st.columns as int;
            let n = st.labels.len() as int;
            let old_idx = st.cursor.1 * c + st.cursor.0;
            let ii = i as int;
            let x = (i % (st.columns as usize)) as usize;
            let y = (i / (st.columns as usize)) as usize;
            if ii % c != st.cursor.0 && ii / c != st.cursor.1 {
                &&& st.after_set_pos(x, y).cursor == ((ii % c) as usize, (ii / c) as usize)
                &&& st.after_set_pos(x, y).cursor.1 * c + st.after_set_pos(x, y).cursor.0 == i
                &&& st.set_pos_change(x, y) == Some(
                    CursorChange {
                        hide: if old_idx < n {
                            Some(old_idx as usize)
                        } else {
                            None
                        },
                        show: Some(i),
                    },
                )
            } else {
                &&& st.after_set_pos(x, y) == st
                &&& st.set_pos_change(x, y) is None
            }
        }),
{
    let c = st.columns as int;
    let n = st.labels.len() as int;
    let ii = i as int;
    assert((ii / c) * c + ii % c == ii && ii / c <= n - 1 && 0 <= ii % c < c && ii / c >= 0)
        by (nonlinear_arith)
        requires
            c > 0,
            0 <= ii < n,
    ;
    let x = (i % (st.columns as usize)) as usize;
    let y = (i / (st.columns as usize)) as usize;
    assert(y * c + x == ii);
    lemma_set_pos_moves_when_column_and_row_change(st, x, y);
}

proof fn lemma_target_fits(st: GridState, x: usize, y: usize)
    requires
        st.columns > 0,
        st.labels.len() > 0,
        y * st.columns + x <= usize::MAX,
    ensures
        st.with_cursor(st.cursor_target(x, y)).wf(),
        st.cursor_target(x, y).1 * st.columns + st.cursor_target(x, y).0 <= y * st.columns + x,
{
    let c = st.columns as int;
    let idx = y * c + x;
    let row = idx / c;
    let col = idx % c;
    assert(row * c + col == idx && 0 <= col < c && row >= 0) by (nonlinear_arith)
        requires
            c > 0,
            idx >= 0,
            row == idx / c,
            col == idx % c,
    ;
    let max_row = st.labels.len() - 1;
    if row > max_row {
        assert(max_row * c <= row * c) by (nonlinear_arith)
            requires
                0 <= max_row <= row,
                c > 0,
        ;
    }
}

impl Grid {
    /// A grid of the given items, with the cursor on the first cell.
    pub fn new(labels: Vec<String>, flags: u32, config: &Config) -> (g: Grid)
        requires
            config.columns > 0,
        ensures
            g@.labels == labels@.map_values(|s: String| s@),
            g@.flags == flags,
            g@.columns == config.columns,
            g@.cursor == (0usize, 0usize),
            g@.wf(),
    {
        Grid { labels, flags, columns: config.columns, cursor: (0, 0) }
    }

    /// The index of the button under the cursor, if there is one.
    fn button_at_cursor(&self) -> (r: Option<usize>)
        requires
            self@.wf(),
        ensures
            r == self@.button_at_cursor(),
    {
        let idx = self.cursor.1 * (self.columns as usize) + self.cursor.0;
        if idx < self.labels.len() {
            Some(idx)
        } else {
            None
        }
    }

    /// The number of columns.
    pub fn columns(&self) -> (c: u8)
        ensures
            c == self@.columns,
    {
        self.columns
    }

    /// The cursor, as (column, row).
    pub fn cursor(&self) -> (c: (usize, usize))
        ensures
            c == self@.cursor,
    {
        self.cursor
    }

    /// The number of items.
    pub fn len(&self) -> (n: usize)
        ensures
            n == self@.labels.len(),
    {
        self.labels.len()
    }

    /// The cells of all items, in order: item `i` at column `i % columns`
    /// of row `i / columns`.
    pub fn layout(&self) -> (r: Vec<Placement>)
        requires
            self@.wf(),
        ensures
            r@ == placements_of(all_indices(self@.labels.len()), self@.columns),
    {
        let c = self.columns as usize;
        let n = self.labels.len();
        let mut out: Vec<Placement> = Vec::new();
        let mut i: usize = 0;
        while i < n
            invariant
                c == self@.columns,
                c > 0,
                n == self@.labels.len(),
                i <= n,
                out@ == placements_of(all_indices(i as nat), self@.columns),
            decreases n - i,
        {
            out.push(Placement { index: i, column: i % c, row: i / c });
            i = i + 1;
            assert(out@ =~= placements_of(all_indices(i as nat), self@.columns));
        }
        out
    }

    /// The items shown while searching for `needle`: with an empty needle
    /// every item, otherwise those that fuzzy-match it, in their order,
    /// filling the grid row by row from the top left; each with its label,
    /// or with the label whose matched characters are wrapped in `[[`, `]]`.
    pub fn update(&self, needle: &str) -> (r: Vec<Shown>)
        requires
            self@.wf(),
        ensures
            shows(r@, self@, needle@),
    {
        let c = self.columns as usize;
        let n = self.labels.len();
        let mut out: Vec<Shown> = Vec::new();
        let mut i: usize = 0;
        proof {
            reveal_strlit("[[");
            reveal_strlit("]]");
            assert("[["@ =~= highlight_open());
            assert("]]"@ =~= highlight_close());
            assert(out@.map_values(|s: Shown| s.placement) =~= placements_of(
                visible_indices(self@.labels, needle@, 0),
                self@.columns,
            ));
        }
        while i < n
            invariant
                c == self@.columns,
                c > 0,
                n == self@.labels.len(),
                i <= n,
                "[["@ == highlight_open(),
                "]]"@ == highlight_close(),
                shows_prefix(out@, self@, needle@, i as int),
            decreases n - i,
        {
            let ghost prev = out@;
            let ghost vis = visible_indices(self@.labels, needle@, i as int);
            let label = &self.labels[i];
            assert(self@.labels[i as int] == label@);
            let k = out.len();
            assert(prev.map_values(|s: Shown| s.placement).len() == vis.len());
            let placement = Placement { index: i, column: k % c, row: k / c };
            if needle.is_empty() {
                out.push(Shown { placement, label: label.clone() });
            } else {
                match best_match(needle, label.as_str()) {
                    Some(m) => {
                        let text = format_simple(&m, label.as_str(), "[[", "]]");
                        out.push(Shown { placement, label: text });
                    },
                    None => {},
                }
            }
            let ghost vis2 = visible_indices(self@.labels, needle@, i + 1);
            proof {
                if item_visible(label@, needle@) {
                    assert(vis2 == vis.push(i));
                    assert(out@ == prev.push(out@.last()));
                    assert(out@.last().placement == placement);
                    assert(k == vis.len());
                    assert(forall|j: int| 0 <= j < prev.len() ==> out@[j] == prev[j]);
                    assert forall|j: int| 0 <= j < prev.len() implies out@[j].placement
                        == #[trigger] placements_of(vis2, self@.columns)[j] by {
                        assert(prev.map_values(|s: Shown| s.placement)[j] == prev[j].placement);
                        assert(placements_of(vis, self@.columns)[j] == placements_of(
                            vis2,
                            self@.columns,
                        )[j]);
                    }
                    assert(out@.map_values(|s: Shown| s.placement) =~= placements_of(
                        vis2,
                        self@.columns,
                    ));
                    assert forall|j: int| 0 <= j < out@.len() implies #[trigger] out@[j].label@
                        == item_text(self@.labels[vis2[j] as int], needle@) by {
                        if j < prev.len() {
                            assert(out@[j] == prev[j]);
                        }
                    }
                } else {
                    assert(vis2 == vis);
                    assert(out@ == prev);
                }
            }
            i = i + 1;
        }
        out
    }

    /// Filters the grid by a search text; see [`Grid::update`].
    pub fn filter(&self, needle: &str) -> (r: Vec<Shown>)
        requires
            self@.wf(),
        ensures
            shows(r@, self@, needle@),
    {
        self.update(needle)
    }

    /// The label of item `i`.
    pub fn label(&self, i: usize) -> (l: &String)
        requires
            i < self@.labels.len(),
        ensures
            l@ == self@.labels[i as int],
    {
        &self.labels[i]
    }

    /// Whether buttons show the item's icon.
    pub fn shows_icon(&self) -> (b: bool)
        ensures
            b == (self@.flags & SHOW_ICON != 0),
    {
        self.flags & SHOW_ICON > 0
    }

    /// Whether buttons show the item's label.
    pub fn shows_label(&self) -> (b: bool)
        ensures
            b == (self@.flags & SHOW_LABEL != 0),
    {
        self.flags & SHOW_LABEL > 0
    }
}

impl GridCursor for Grid {
    open spec fn cursor_ready(&self) -> bool {
        self@.ready()
    }

    open spec fn cursor_wf(&self) -> bool {
        self@.wf()
    }

    open spec fn accepts_left(&self) -> bool {
        self@.cursor.0 > 0 ==> self@.ready()
    }

    open spec fn accepts_up(&self) -> bool {
        self@.cursor.1 > 0 ==> self@.ready()
    }

    open spec fn accepts_pos(&self, x: usize, y: usize) -> bool {
        y * self@.columns + x <= usize::MAX
    }

    fn cursor_hide(&self) -> (r: Option<usize>)
        ensures
            r == self@.button_at_cursor(),
    {
        self.button_at_cursor()
    }

    fn cursor_show(&self) -> (r: Option<usize>)
        ensures
            r == self@.button_at_cursor(),
    {
        self.button_at_cursor()
    }

    fn cursor_set_pos(&mut self, x: usize, y: usize) -> (r: Option<CursorChange>)
        ensures
            final(self)@ == old(self)@.after_set_pos(x, y),
            r == old(self)@.set_pos_change(x, y),
    {
        proof {
            lemma_target_fits(self@, x, y);
        }
        let c = self.columns as usize;
        let idx = y * c + x;
        let x_next = idx % c;
        let mut y_next = idx / c;
        let y_max = self.labels.len() - 1;
        if y_next > y_max {
            y_next = y_max;
        }
        assert((x_next, y_next) == self@.cursor_target(x, y));
        if self.cursor.0 != x_next && self.cursor.1 != y_next {
            let hide = self.cursor_hide();
            self.cursor = (x_next, y_next);
            let show = self.cursor_show();
            Some(CursorChange { hide, show })
        } else {
            None
        }
    }

    fn cursor_set_index(&mut self, index: usize) -> (r: Option<CursorChange>)
        ensures
            final(self)@ == old(self)@.after_set_pos(
                index % (old(self)@.columns as usize),
                index / (old(self)@.columns as usize),
            ),
            r == old(self)@.set_pos_change(
                index % (old(self)@.columns as usize),
                index / (old(self)@.columns as usize),
            ),
    {
        let c = self.columns as usize;
        let x = index % c;
        let y = index / c;
        assert(y * c + x == index) by (nonlinear_arith)
            requires
                c > 0,
                x == index % c,
                y == index / c,
        ;
        self.cursor_set_pos(x, y)
    }

    fn cursor_left(&mut self) -> (r: Option<CursorChange>)
        ensures
            old(self)@.cursor.0 > 0 ==> final(self)@ == old(self)@.after_set_pos(
                (old(self)@.cursor.0 - 1) as usize,
                old(self)@.cursor.1,
            ) && r == old(self)@.set_pos_change(
                (old(self)@.cursor.0 - 1) as usize,
                old(self)@.cursor.1,
            ),
            old(self)@.cursor.0 == 0 ==> final(self)@ == old(self)@ && r is None,
    {
        if self.cursor.0 > 0 {
            self.cursor_set_pos(self.cursor.0 - 1, self.cursor.1)
        } else {
            None
        }
    }

    fn cursor_right(&mut self) -> (r: Option<CursorChange>)
        ensures
            final(self)@ == old(self)@.after_set_pos(
                (old(self)@.cursor.0 + 1) as usize,
                old(self)@.cursor.1,
            ),
            r == old(self)@.set_pos_change((old(self)@.cursor.0 + 1) as usize, old(self)@.cursor.1),
    {
        proof {
            let c = self@.columns as int;
            let n = self@.labels.len() as int;
            let x = self@.cursor.0 as int;
            let y = self@.cursor.1 as int;
            assert(y * c + x + 1 <= (n + 1) * c) by (nonlinear_arith)
                requires
                    0 <= y < n,
                    0 <= x < c,
            ;
        }
        self.cursor_set_pos(self.cursor.0 + 1, self.cursor.1)
    }

    fn cursor_up(&mut self) -> (r: Option<CursorChange>)
        ensures
            old(self)@.cursor.1 > 0 ==> final(self)@ == old(self)@.after_set_pos(
                old(self)@.cursor.0,
                (old(self)@.cursor.1 - 1) as usize,
            ) && r == old(self)@.set_pos_change(
                old(self)@.cursor.0,
                (old(self)@.cursor.1 - 1) as usize,
            ),
            old(self)@.cursor.1 == 0 ==> final(self)@ == old(self)@ && r is None,
    {
        if self.cursor.1 > 0 {
            proof {
                let c = self@.columns as int;
                let x = self@.cursor.0 as int;
                let y = self@.cursor.1 as int;
                assert((y - 1) * c + x <= y * c + x) by (nonlinear_arith)
                    requires
                        y >= 1,
                        c > 0,
                ;
            }
            self.cursor_set_pos(self.cursor.0, self.cursor.1 - 1)
        } else {
            None
        }
    }

    fn cursor_down(&mut self) -> (r: Option<CursorChange>)
        ensures
            final(self)@ == old(self)@.after_set_pos(
                old(self)@.cursor.0,
                (old(self)@.cursor.1 + 1) as usize,
            ),
            r == old(self)@.set_pos_change(old(self)@.cursor.0, (old(self)@.cursor.1 + 1) as usize),
    {
        proof {
            let c = self@.columns as int;
            let n = self@.labels.len() as int;
            let x = self@.cursor.0 as int;
            let y = self@.cursor.1 as int;
            assert((y + 1) * c + x <= (n + 1) * c && n + 1 <= (n + 1) * c) by (nonlinear_arith)
                requires
                    0 <= y < n,
                    0 <= x < c,
            ;
        }
        self.cursor_set_pos(self.cursor.0, self.cursor.1 + 1)
    }
}

} // verus!
