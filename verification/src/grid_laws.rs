use vstd::prelude::*;
use crate::block::Block;
use crate::command::Command;
use crate::grid_model::{
    GridView, blank_row, lemma_after, lemma_kept_prefix, lemma_rows_split, lemma_slid,
    lemma_turned,
};
use crate::lrd::LRD;

verus! {

/// The full rows of `g` among those from `lo` up to, not including, `hi`.
pub open spec fn full_rows(g: GridView, lo: int, hi: int) -> Set<int> {
    Set::new(|y: int| lo <= y < hi && g.row_full(y))
}

/// The number of rows in `full` that lie below row `r`.
pub open spec fn rows_under(full: Set<int>, r: int) -> nat {
    full.filter(|q: int| q > r).len()
}

/// The full rows of a range are finitely many, at most as many as the range
/// has rows.
pub proof fn lemma_full_rows_finite(g: GridView, lo: int, hi: int)
    ensures
        full_rows(g, lo, hi).finite(),
        full_rows(g, lo, hi).len() <= if lo <= hi {
            hi - lo
        } else {
            0
        },
    decreases hi - lo,
{
    if hi <= lo {
        assert(full_rows(g, lo, hi) =~= Set::<int>::empty());
    } else {
        lemma_full_rows_finite(g, lo, hi - 1);
        if g.row_full(hi - 1) {
            assert(full_rows(g, lo, hi) =~= full_rows(g, lo, hi - 1).insert(hi - 1));
        } else {
            assert(full_rows(g, lo, hi) =~= full_rows(g, lo, hi - 1));
        }
    }
}

/// The full rows of a range are those of its upper part and those of its
/// lower part.
pub proof fn lemma_full_rows_split(g: GridView, lo: int, mid: int, hi: int)
    requires
        lo <= mid <= hi,
    ensures
        full_rows(g, lo, hi).len() == full_rows(g, lo, mid).len() + full_rows(g, mid, hi).len(),
    decreases hi - mid,
{
    lemma_full_rows_finite(g, lo, mid);
    if hi == mid {
        assert(full_rows(g, mid, hi) =~= Set::<int>::empty());
    } else {
        lemma_full_rows_split(g, lo, mid, hi - 1);
        lemma_full_rows_finite(g, lo, hi - 1);
        lemma_full_rows_finite(g, mid, hi - 1);
        if g.row_full(hi - 1) {
            assert(full_rows(g, lo, hi) =~= full_rows(g, lo, hi - 1).insert(hi - 1));
            assert(full_rows(g, mid, hi) =~= full_rows(g, mid, hi - 1).insert(hi - 1));
        } else {
            assert(full_rows(g, lo, hi) =~= full_rows(g, lo, hi - 1));
            assert(full_rows(g, mid, hi) =~= full_rows(g, mid, hi - 1));
        }
    }
}

/// The list of the full rows among the first `n` has as many entries as
/// there are full rows among them.
pub proof fn lemma_full_below_len(g: GridView, n: int)
    requires
        0 <= n,
    ensures
        g.full_below(n).len() == full_rows(g, 0, n).len(),
        g.kept_rows(n).len() == n - full_rows(g, 0, n).len(),
    decreases n,
{
    lemma_rows_split(g, n);
    if n == 0 {
        assert(full_rows(g, 0, 0) =~= Set::<int>::empty());
    } else {
        lemma_full_below_len(g, n - 1);
        lemma_full_rows_finite(g, 0, n - 1);
        if g.row_full(n - 1) {
            assert(full_rows(g, 0, n) =~= full_rows(g, 0, n - 1).insert(n - 1));
        } else {
            assert(full_rows(g, 0, n) =~= full_rows(g, 0, n - 1));
        }
    }
}

/// Row clearing. Where exactly the rows in `full` are full, as many rows are
/// cleared as `full` has members. Every other row then stands as many rows
/// lower as there were full rows below it, so they keep their order; its
/// locked cells are as they were and its other cells have the background
/// colour of their new place. The rows above them are empty, each cell in the
/// background colour of its place.
pub proof fn lemma_row_clear(g: GridView, full: Set<int>)
    requires
        g.wf(),
        forall|y: int| full.contains(y) <==> 0 <= y < g.height && g.row_full(y),
    ensures
        full.finite(),
        g.full_count() == full.len(),
        forall|r: int|
            0 <= r < g.height && !full.contains(r) ==> r + #[trigger] rows_under(full, r)
                < g.height && g.cleared().rows[r + rows_under(full, r)] == g.carried_row(
                r,
                r + rows_under(full, r),
            ),
        forall|r: int, s: int|
            0 <= r < s < g.height && !full.contains(s) ==> r + #[trigger] rows_under(full, r) < s
                + #[trigger] rows_under(full, s),
        forall|y: int|
            0 <= y < full.len() ==> #[trigger] g.cleared().rows[y] == blank_row(
                g.background,
                g.width,
                y,
            ),
{
    let h = g.height;
    assert(full =~= full_rows(g, 0, h));
    lemma_full_rows_finite(g, 0, h);
    lemma_full_below_len(g, h);
    lemma_rows_split(g, h);
    let kept = g.kept_rows(h);
    let gone = h - kept.len();
    assert(gone == full.len());
    assert forall|r: int| 0 <= r < h implies rows_under(full, r) == full_rows(g, r + 1, h).len()
        && rows_under(full, r) == #[trigger] full_rows(g, 0, h).len() - full_rows(
        g,
        0,
        r + 1,
    ).len() by {
        assert(full.filter(|q: int| q > r) =~= full_rows(g, r + 1, h));
        lemma_full_rows_split(g, 0, r + 1, h);
    }
    assert forall|r: int| 0 <= r < h && !full.contains(r) implies r + #[trigger] rows_under(
        full,
        r,
    ) < h && g.cleared().rows[r + rows_under(full, r)] == g.carried_row(
        r,
        r + rows_under(full, r),
    ) by {
        assert(rows_under(full, r) == full_rows(g, 0, h).len() - full_rows(g, 0, r + 1).len());
        lemma_full_below_len(g, r + 1);
        lemma_full_below_len(g, r);
        lemma_kept_prefix(g, r + 1, h);
        lemma_rows_split(g, r);
        let at = g.kept_rows(r).len() as int;
        assert(g.kept_rows(r + 1) == g.kept_rows(r).push(r));
        assert(g.kept_rows(r + 1)[at] == r);
        assert(kept[at] == r);
        assert(r + rows_under(full, r) == gone + at);
    }
    assert forall|r: int, s: int| 0 <= r < s < h && !full.contains(s) implies r
        + #[trigger] rows_under(full, r) < s + #[trigger] rows_under(full, s) by {
        assert(rows_under(full, r) == full_rows(g, r + 1, h).len());
        assert(rows_under(full, s) == full_rows(g, s + 1, h).len());
        lemma_full_rows_split(g, r + 1, s + 1, h);
        lemma_full_rows_finite(g, r + 1, s);
        assert(full_rows(g, r + 1, s + 1) =~= full_rows(g, r + 1, s));
    }
}

/// A turn ends in one of two ways: the turned piece stands where it lies on
/// the playfield and covers no locked cell, or nothing has changed.
pub proof fn lemma_turn_is_valid_or_nothing(g: GridView, turned: Block, hit_bottom: bool)
    requires
        g.wf(),
    ensures
        g.spun(turned, hit_bottom).wf(),
        g.kick(turned) is Some ==> g.spun(turned, hit_bottom).piece == turned && g.spun(
            turned,
            hit_bottom,
        ).piece_fits(),
        g.kick(turned) is None ==> g.spun(turned, hit_bottom) == g,
{
    lemma_turned(g, turned);
    lemma_slid(g.turned(turned), LRD::Down, true);
}

/// No move, turn or fall brings the piece in play onto a locked cell: after
/// any command for the piece, and after any fall, a piece that covered no
/// locked cell covers none, and the locked cells are as they were.
pub proof fn lemma_no_overlap(g: GridView, cmd: Command, hit_bottom: bool, is_drop: bool)
    requires
        g.wf(),
        g.piece_fits(),
    ensures
        g.after(cmd, hit_bottom).piece_fits(),
        g.after(cmd, hit_bottom).rows == g.rows,
        g.slid(LRD::Down, is_drop).piece_fits(),
        g.slid(LRD::Down, is_drop).rows == g.rows,
{
    lemma_after(g, cmd, hit_bottom);
    lemma_slid(g, LRD::Down, is_drop);
}

/// A piece that has moved, turned or fallen covers no locked cell, whether
/// it covered one where it entered or not.
pub proof fn lemma_moved_piece_is_clear(g: GridView, cmd: Command, hit_bottom: bool, is_drop: bool)
    requires
        g.wf(),
    ensures
        g.after(cmd, hit_bottom).piece_fits() || g.after(cmd, hit_bottom) == g,
        g.slid(LRD::Down, is_drop).piece_fits() || g.slid(LRD::Down, is_drop) == g,
{
    lemma_after(g, cmd, hit_bottom);
    lemma_slid(g, LRD::Down, is_drop);
}

} // verus!
