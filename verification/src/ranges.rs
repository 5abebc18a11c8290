//! Splitting a BAR into directly mapped and trapped byte ranges.
//!
//! Two shapes of range occur. An *interval* is a pair `(start, end)` that stands for the
//! half-open range `[start, end)`. An *area* is a pair `(offset, size)` that stands for
//! `[offset, offset + size)`.

use vstd::prelude::*;

verus! {

/// Whether the interval `[r.0, r.1)` contains `x`.
pub open spec fn interval_has(r: (u64, u64), x: int) -> bool {
    r.0 <= x < r.1
}

/// Whether one of the intervals contains `x`.
pub open spec fn intervals_have(rs: Seq<(u64, u64)>, x: int) -> bool {
    exists|i: int| 0 <= i < rs.len() && interval_has(#[trigger] rs[i], x)
}

/// Whether the area `[a.0, a.0 + a.1)` contains `x`.
pub open spec fn area_has(a: (u64, u64), x: int) -> bool {
    a.0 <= x < a.0 + a.1
}

/// Whether one of the areas contains `x`.
pub open spec fn areas_have(areas: Seq<(u64, u64)>, x: int) -> bool {
    exists|i: int| 0 <= i < areas.len() && area_has(#[trigger] areas[i], x)
}

/// Whether each area ends before the next one begins, and none is empty.
pub open spec fn areas_ordered(areas: Seq<(u64, u64)>) -> bool {
    &&& forall|i: int| 0 <= i < areas.len() ==> (#[trigger] areas[i]).1 > 0
    &&& forall|i: int, j: int|
        0 <= i < j < areas.len() ==> (#[trigger] areas[i]).0 + areas[i].1 <= (#[trigger] areas[j]).0
}

/// Whether the areas lie inside `[lo, hi)`, and none is empty.
pub open spec fn areas_within(areas: Seq<(u64, u64)>, lo: int, hi: int) -> bool {
    forall|i: int|
        0 <= i < areas.len() ==> (#[trigger] areas[i]).1 > 0 && lo <= areas[i].0 && areas[i].0
            + areas[i].1 <= hi
}

/// Whether no interval ends before it starts.
pub open spec fn intervals_forward(rs: Seq<(u64, u64)>) -> bool {
    forall|i: int| 0 <= i < rs.len() ==> (#[trigger] rs[i]).0 <= rs[i].1
}

/// What is left of the interval `piece` once `hole` is taken out of it.
pub open spec fn cut(piece: (u64, u64), hole: (u64, u64)) -> Seq<(u64, u64)> {
    if hole.1 <= piece.0 || hole.0 >= piece.1 {
        seq![piece]
    } else {
        let below = if piece.0 < hole.0 {
            seq![(piece.0, hole.0)]
        } else {
            seq![]
        };
        let above = if hole.1 < piece.1 {
            seq![(hole.1, piece.1)]
        } else {
            seq![]
        };
        below + above
    }
}

/// What is left of `pieces` once `hole` is taken out of each of them.
pub open spec fn cut_each(pieces: Seq<(u64, u64)>, hole: (u64, u64)) -> Seq<(u64, u64)>
    decreases pieces.len(),
{
    if pieces.len() == 0 {
        seq![]
    } else {
        cut_each(pieces.drop_last(), hole) + cut(pieces.last(), hole)
    }
}

/// What is left of `[start, end)` once every hole is taken out of it, one after the other.
pub open spec fn pieces_left(start: u64, end: u64, holes: Seq<(u64, u64)>) -> Seq<(u64, u64)>
    decreases holes.len(),
{
    if holes.len() == 0 {
        seq![(start, end)]
    } else {
        cut_each(pieces_left(start, end, holes.drop_last()), holes.last())
    }
}

/// The non-empty ones of `pieces`, as areas.
pub open spec fn as_areas(pieces: Seq<(u64, u64)>) -> Seq<(u64, u64)>
    decreases pieces.len(),
{
    if pieces.len() == 0 {
        seq![]
    } else {
        let rest = as_areas(pieces.drop_last());
        let piece = pieces.last();
        if piece.1 > piece.0 {
            rest.push((piece.0, (piece.1 - piece.0) as u64))
        } else {
            rest
        }
    }
}

/// The areas of `[start, end)` that no hole covers.
pub open spec fn areas_left(start: u64, end: u64, holes: Seq<(u64, u64)>) -> Seq<(u64, u64)> {
    as_areas(pieces_left(start, end, holes))
}

/// Whether no piece starts below `lo` or ends above `hi`.
spec fn pieces_within(pieces: Seq<(u64, u64)>, lo: int, hi: int) -> bool {
    forall|i: int|
        0 <= i < pieces.len() ==> lo <= (#[trigger] pieces[i]).0 && pieces[i].1 <= hi
}

/// Whether each piece ends before the next one begins.
spec fn pieces_ordered(pieces: Seq<(u64, u64)>) -> bool {
    forall|i: int, j: int|
        0 <= i < j < pieces.len() ==> (#[trigger] pieces[i]).1 <= (#[trigger] pieces[j]).0
}

proof fn lemma_intervals_push(rs: Seq<(u64, u64)>, more: Seq<(u64, u64)>, x: int)
    ensures
        intervals_have(rs + more, x) == (intervals_have(rs, x) || intervals_have(more, x)),
{
    let all = rs + more;
    if intervals_have(rs, x) {
        let i = choose|i: int| 0 <= i < rs.len() && interval_has(#[trigger] rs[i], x);
        assert(interval_has(all[i], x));
    }
    if intervals_have(more, x) {
        let i = choose|i: int| 0 <= i < more.len() && interval_has(#[trigger] more[i], x);
        assert(interval_has(all[rs.len() + i], x));
    }
    if intervals_have(all, x) {
        let i = choose|i: int| 0 <= i < all.len() && interval_has(#[trigger] all[i], x);
        if i < rs.len() {
            assert(interval_has(rs[i], x));
        } else {
            assert(interval_has(more[i - rs.len()], x));
        }
    }
}

proof fn lemma_cut(piece: (u64, u64), hole: (u64, u64), x: int)
    ensures
        intervals_have(cut(piece, hole), x) == (interval_has(piece, x) && !interval_has(hole, x)),
{
    let left = cut(piece, hole);
    if hole.1 <= piece.0 || hole.0 >= piece.1 {
        assert(left[0] == piece);
    } else {
        if piece.0 < hole.0 {
            assert(left[0] == (piece.0, hole.0));
            if hole.1 < piece.1 {
                assert(left[1] == (hole.1, piece.1));
            }
        } else if hole.1 < piece.1 {
            assert(left[0] == (hole.1, piece.1));
        }
    }
}

proof fn lemma_cut_each(pieces: Seq<(u64, u64)>, hole: (u64, u64), x: int)
    ensures
        intervals_have(cut_each(pieces, hole), x) == (intervals_have(pieces, x) && !interval_has(
            hole,
            x,
        )),
    decreases pieces.len(),
{
    if pieces.len() > 0 {
        let rest = pieces.drop_last();
        lemma_cut_each(rest, hole, x);
        lemma_cut(pieces.last(), hole, x);
        lemma_intervals_push(cut_each(rest, hole), cut(pieces.last(), hole), x);
        lemma_intervals_push(rest, seq![pieces.last()], x);
        assert(pieces =~= rest + seq![pieces.last()]);
        assert(seq![pieces.last()][0] == pieces.last());
    }
}

proof fn lemma_pieces_left(start: u64, end: u64, holes: Seq<(u64, u64)>, x: int)
    ensures
        intervals_have(pieces_left(start, end, holes), x) == (start <= x < end && !intervals_have(
            holes,
            x,
        )),
    decreases holes.len(),
{
    if holes.len() == 0 {
        assert(pieces_left(start, end, holes)[0] == (start, end));
    } else {
        let rest = holes.drop_last();
        lemma_pieces_left(start, end, rest, x);
        lemma_cut_each(pieces_left(start, end, rest), holes.last(), x);
        lemma_intervals_push(rest, seq![holes.last()], x);
        assert(holes =~= rest + seq![holes.last()]);
        assert(seq![holes.last()][0] == holes.last());
    }
}

proof fn lemma_as_areas(pieces: Seq<(u64, u64)>, x: int)
    ensures
        areas_have(as_areas(pieces), x) == intervals_have(pieces, x),
    decreases pieces.len(),
{
    if pieces.len() > 0 {
        let rest = pieces.drop_last();
        let piece = pieces.last();
        let areas = as_areas(pieces);
        lemma_as_areas(rest, x);
        lemma_intervals_push(rest, seq![piece], x);
        assert(pieces =~= rest + seq![piece]);
        assert(seq![piece][0] == piece);
        if piece.1 > piece.0 {
            let before = as_areas(rest);
            assert(areas.last() == (piece.0, (piece.1 - piece.0) as u64));
            if areas_have(areas, x) {
                let i = choose|i: int| 0 <= i < areas.len() && area_has(#[trigger] areas[i], x);
                if i < before.len() {
                    assert(area_has(before[i], x));
                }
            }
            if areas_have(before, x) {
                let i = choose|i: int| 0 <= i < before.len() && area_has(#[trigger] before[i], x);
                assert(area_has(areas[i], x));
            }
            if interval_has(piece, x) {
                assert(area_has(areas[before.len() as int], x));
            }
        }
    }
}

proof fn lemma_cut_each_within(pieces: Seq<(u64, u64)>, hole: (u64, u64), lo: int, hi: int)
    requires
        pieces_within(pieces, lo, hi),
    ensures
        pieces_within(cut_each(pieces, hole), lo, hi),
        pieces_ordered(pieces) && hole.0 <= hole.1 ==> pieces_ordered(cut_each(pieces, hole)),
    decreases pieces.len(),
{
    if pieces.len() > 0 {
        let rest = pieces.drop_last();
        lemma_cut_each_within(rest, hole, lo, hi);
        if pieces_ordered(pieces) && hole.0 <= hole.1 {
            assert(pieces_ordered(rest));
            assert(pieces_within(rest, lo, pieces.last().0 as int)) by {
                assert forall|i: int| 0 <= i < rest.len() implies lo <= (#[trigger] rest[i]).0
                    && rest[i].1 <= pieces.last().0 by {
                    assert(pieces[i].1 <= pieces[pieces.len() - 1].0);
                }
            }
            lemma_cut_each_within(rest, hole, lo, pieces.last().0 as int);
        }
    }
}

proof fn lemma_areas_left_shape(start: u64, end: u64, holes: Seq<(u64, u64)>)
    ensures
        pieces_within(pieces_left(start, end, holes), start as int, end as int),
        intervals_forward(holes) ==> pieces_ordered(pieces_left(start, end, holes)),
    decreases holes.len(),
{
    if holes.len() > 0 {
        let rest = holes.drop_last();
        lemma_areas_left_shape(start, end, rest);
        lemma_cut_each_within(
            pieces_left(start, end, rest),
            holes.last(),
            start as int,
            end as int,
        );
        if intervals_forward(holes) {
            assert forall|i: int| 0 <= i < rest.len() implies (#[trigger] rest[i]).0
                <= rest[i].1 by {
                assert(holes[i].0 <= holes[i].1);
            }
            assert(holes[holes.len() - 1].0 <= holes[holes.len() - 1].1);
        }
    }
}

proof fn lemma_as_areas_shape(pieces: Seq<(u64, u64)>, lo: int, hi: int)
    requires
        pieces_within(pieces, lo, hi),
    ensures
        areas_within(as_areas(pieces), lo, hi),
        pieces_ordered(pieces) ==> areas_ordered(as_areas(pieces)),
    decreases pieces.len(),
{
    if pieces.len() > 0 {
        let rest = pieces.drop_last();
        lemma_as_areas_shape(rest, lo, hi);
        let piece = pieces[pieces.len() - 1];
        assert(lo <= piece.0 && piece.1 <= hi);
        if pieces_ordered(pieces) {
            assert(pieces_within(rest, lo, pieces.last().0 as int)) by {
                assert forall|i: int| 0 <= i < rest.len() implies lo <= (#[trigger] rest[i]).0
                    && rest[i].1 <= pieces.last().0 by {
                    assert(pieces[i].1 <= pieces[pieces.len() - 1].0);
                }
            }
            lemma_as_areas_shape(rest, lo, pieces.last().0 as int);
        }
    }
}

/// The areas that are left of `[start, end)` hold exactly the points of it that no hole holds.
pub proof fn law_areas_left_hold_what_no_hole_holds(
    start: u64,
    end: u64,
    holes: Seq<(u64, u64)>,
    x: int,
)
    ensures
        areas_have(areas_left(start, end, holes), x) <==> start <= x < end && !intervals_have(
            holes,
            x,
        ),
{
    lemma_pieces_left(start, end, holes, x);
    lemma_as_areas(pieces_left(start, end, holes), x);
}

/// The areas that are left of `[start, end)` lie inside it, and in rising order where no hole ends
/// before it starts.
pub proof fn law_areas_left_are_ordered(start: u64, end: u64, holes: Seq<(u64, u64)>)
    ensures
        areas_within(areas_left(start, end, holes), start as int, end as int),
        intervals_forward(holes) ==> areas_ordered(areas_left(start, end, holes)),
{
    lemma_areas_left_shape(start, end, holes);
    lemma_as_areas_shape(pieces_left(start, end, holes), start as int, end as int);
}

/// Splits the interval `[start, end)` into the areas that none of `holes` covers.
pub fn subtract_holes(start: u64, end: u64, holes: &[(u64, u64)]) -> (areas: Vec<(u64, u64)>)
    ensures
        areas@ == areas_left(start, end, holes@),
        forall|x: int|
            #![trigger areas_have(areas@, x)]
            areas_have(areas@, x) <==> start <= x < end && !intervals_have(holes@, x),
        areas_within(areas@, start as int, end as int),
        intervals_forward(holes@) ==> areas_ordered(areas@),
{
    let mut pieces: Vec<(u64, u64)> = Vec::new();
    pieces.push((start, end));
    let mut h: usize = 0;
    proof {
        assert(pieces@ =~= pieces_left(start, end, holes@.take(0)));
    }
    while h < holes.len()
        invariant
            h <= holes@.len(),
            pieces@ == pieces_left(start, end, holes@.take(h as int)),
        decreases holes@.len() - h,
    {
        let hole = holes[h];
        let mut next: Vec<(u64, u64)> = Vec::new();
        let mut p: usize = 0;
        proof {
            assert(next@ =~= cut_each(pieces@.take(0), hole));
        }
        while p < pieces.len()
            invariant
                p <= pieces@.len(),
                next@ == cut_each(pieces@.take(p as int), hole),
            decreases pieces@.len() - p,
        {
            let piece = pieces[p];
            let ghost before = next@;
            if hole.1 <= piece.0 || hole.0 >= piece.1 {
                next.push(piece);
            } else {
                if piece.0 < hole.0 {
                    next.push((piece.0, hole.0));
                }
                if hole.1 < piece.1 {
                    next.push((hole.1, piece.1));
                }
            }
            proof {
                let upto = pieces@.take(p as int + 1);
                assert(upto.drop_last() =~= pieces@.take(p as int));
                assert(next@ =~= before + cut(piece, hole));
            }
            p = p + 1;
        }
        proof {
            assert(pieces@.take(p as int) =~= pieces@);
            assert(holes@.take(h as int + 1).drop_last() =~= holes@.take(h as int));
        }
        pieces = next;
        h = h + 1;
    }
    proof {
        assert(holes@.take(h as int) =~= holes@);
    }
    let mut areas: Vec<(u64, u64)> = Vec::new();
    let mut p: usize = 0;
    proof {
        assert(areas@ =~= as_areas(pieces@.take(0)));
    }
    while p < pieces.len()
        invariant
            p <= pieces@.len(),
            areas@ == as_areas(pieces@.take(p as int)),
        decreases pieces@.len() - p,
    {
        let piece = pieces[p];
        if piece.1 > piece.0 {
            areas.push((piece.0, piece.1 - piece.0));
        }
        proof {
            assert(pieces@.take(p as int + 1).drop_last() =~= pieces@.take(p as int));
        }
        p = p + 1;
    }
    proof {
        assert(pieces@.take(p as int) =~= pieces@);
        assert forall|x: int| #[trigger] areas_have(areas@, x) <==> start <= x < end
            && !intervals_have(holes@, x) by {
            law_areas_left_hold_what_no_hole_holds(start, end, holes@, x);
        }
        law_areas_left_are_ordered(start, end, holes@);
    }
    areas
}

/// Where the sweep over a region of `size` bytes stands once it has passed all of `mapped`.
pub open spec fn sweep_end(size: u64, mapped: Seq<(u64, u64)>) -> u64
    decreases mapped.len(),
{
    if mapped.len() == 0 {
        0
    } else {
        let before = sweep_end(size, mapped.drop_last());
        let start = clamp(mapped.last().0 as int, size);
        let end = clamp(start + mapped.last().1, size);
        if end > before {
            end
        } else {
            before
        }
    }
}

/// The gaps that the sweep over a region of `size` bytes leaves behind as it passes `mapped`.
pub open spec fn sweep_gaps(size: u64, mapped: Seq<(u64, u64)>) -> Seq<(u64, u64)>
    decreases mapped.len(),
{
    if mapped.len() == 0 {
        seq![]
    } else {
        let gaps = sweep_gaps(size, mapped.drop_last());
        let before = sweep_end(size, mapped.drop_last());
        let start = clamp(mapped.last().0 as int, size);
        if start > before {
            gaps.push((before, (start - before) as u64))
        } else {
            gaps
        }
    }
}

/// The areas of a region of `size` bytes that `mapped`, taken in rising order, does not cover.
pub open spec fn gaps_of(size: u64, mapped: Seq<(u64, u64)>) -> Seq<(u64, u64)> {
    let end = sweep_end(size, mapped);
    if end < size {
        sweep_gaps(size, mapped).push((end, (size - end) as u64))
    } else {
        sweep_gaps(size, mapped)
    }
}

/// The smaller of `x` and `limit`.
pub open spec fn clamp(x: int, limit: u64) -> u64 {
    if x < limit {
        x as u64
    } else {
        limit
    }
}

/// Whether the areas come in rising order of their offsets.
pub open spec fn areas_rising(areas: Seq<(u64, u64)>) -> bool {
    forall|i: int, j: int|
        0 <= i < j < areas.len() ==> (#[trigger] areas[i]).0 <= (#[trigger] areas[j]).0
}

/// Two lists of areas together hold what one or the other holds.
pub proof fn law_joined_areas(a: Seq<(u64, u64)>, b: Seq<(u64, u64)>, x: int)
    ensures
        areas_have(a + b, x) <==> areas_have(a, x) || areas_have(b, x),
{
    let all = a + b;
    if areas_have(a, x) {
        let i = choose|i: int| 0 <= i < a.len() && area_has(#[trigger] a[i], x);
        assert(area_has(all[i], x));
    }
    if areas_have(b, x) {
        let i = choose|i: int| 0 <= i < b.len() && area_has(#[trigger] b[i], x);
        assert(area_has(all[a.len() + i], x));
    }
    if areas_have(all, x) {
        let i = choose|i: int| 0 <= i < all.len() && area_has(#[trigger] all[i], x);
        if i < a.len() {
            assert(area_has(a[i], x));
        } else {
            assert(area_has(b[i - a.len()], x));
        }
    }
}

proof fn lemma_areas_push(areas: Seq<(u64, u64)>, a: (u64, u64), x: int)
    ensures
        areas_have(areas.push(a), x) == (areas_have(areas, x) || area_has(a, x)),
{
    law_joined_areas(areas, seq![a], x);
    assert(areas.push(a) =~= areas + seq![a]);
    assert(seq![a][0] == a);
}

proof fn lemma_sweep_shape(size: u64, mapped: Seq<(u64, u64)>)
    ensures
        sweep_end(size, mapped) <= size,
        areas_within(sweep_gaps(size, mapped), 0, sweep_end(size, mapped) as int),
        areas_ordered(sweep_gaps(size, mapped)),
    decreases mapped.len(),
{
    if mapped.len() > 0 {
        lemma_sweep_shape(size, mapped.drop_last());
    }
}

proof fn lemma_sweep(size: u64, mapped: Seq<(u64, u64)>, x: int)
    requires
        areas_rising(mapped),
        0 <= x < size,
    ensures
        x < sweep_end(size, mapped) ==> (areas_have(sweep_gaps(size, mapped), x) <==> !areas_have(
            mapped,
            x,
        )),
        sweep_end(size, mapped) <= x ==> !areas_have(sweep_gaps(size, mapped), x) && !areas_have(
            mapped,
            x,
        ),
        areas_have(sweep_gaps(size, mapped), x) ==> mapped.len() > 0 && x < mapped.last().0,
    decreases mapped.len(),
{
    if mapped.len() > 0 {
        let rest = mapped.drop_last();
        let last = mapped.last();
        let before = sweep_end(size, rest);
        let start = clamp(last.0 as int, size);
        lemma_sweep(size, rest, x);
        lemma_areas_push(rest, last, x);
        assert(rest.push(last) =~= mapped);
        if start > before {
            lemma_areas_push(sweep_gaps(size, rest), (before, (start - before) as u64), x);
        }
        if rest.len() > 0 {
            assert(mapped[rest.len() - 1].0 <= mapped[mapped.len() - 1].0);
        }
    }
}

/// The gaps between mapped areas that come in rising order hold exactly the points of the region
/// that no mapped area holds.
pub proof fn law_gaps_hold_what_is_not_mapped(size: u64, mapped: Seq<(u64, u64)>, x: int)
    requires
        areas_rising(mapped),
    ensures
        areas_have(gaps_of(size, mapped), x) <==> 0 <= x < size && !areas_have(mapped, x),
{
    let gaps = gaps_of(size, mapped);
    let end = sweep_end(size, mapped);
    law_gaps_are_ordered(size, mapped);
    if 0 <= x < size {
        lemma_sweep(size, mapped, x);
        if end < size {
            lemma_areas_push(sweep_gaps(size, mapped), (end, (size - end) as u64), x);
        }
    } else if areas_have(gaps, x) {
        let k = choose|k: int| 0 <= k < gaps.len() && area_has(#[trigger] gaps[k], x);
        assert(gaps[k].0 + gaps[k].1 <= size);
    }
}

/// The gaps lie inside the region, and come in rising order.
pub proof fn law_gaps_are_ordered(size: u64, mapped: Seq<(u64, u64)>)
    ensures
        areas_within(gaps_of(size, mapped), 0, size as int),
        areas_ordered(gaps_of(size, mapped)),
{
    lemma_sweep_shape(size, mapped);
}

/// Given a region of `size` bytes and the mapped areas in rising order of their offsets, returns
/// the complement: the areas that no mapping covers.
pub fn complement_ranges(size: u64, mapped: &[(u64, u64)]) -> (areas: Vec<(u64, u64)>)
    ensures
        areas@ == gaps_of(size, mapped@),
        areas_within(areas@, 0, size as int),
        areas_ordered(areas@),
        areas_rising(mapped@) ==> forall|x: int|
            #![trigger areas_have(areas@, x)]
            areas_have(areas@, x) <==> 0 <= x < size && !areas_have(mapped@, x),
{
    let mut areas: Vec<(u64, u64)> = Vec::new();
    let mut cursor: u64 = 0;
    let mut i: usize = 0;
    proof {
        assert(areas@ =~= sweep_gaps(size, mapped@.take(0)));
    }
    while i < mapped.len()
        invariant
            i <= mapped@.len(),
            cursor <= size,
            cursor == sweep_end(size, mapped@.take(i as int)),
            areas@ == sweep_gaps(size, mapped@.take(i as int)),
        decreases mapped@.len() - i,
    {
        let (offset, len) = mapped[i];
        let start: u64 = if offset < size {
            offset
        } else {
            size
        };
        let end: u64 = if len < size - start {
            start + len
        } else {
            size
        };
        if start > cursor {
            areas.push((cursor, start - cursor));
        }
        if end > cursor {
            cursor = end;
        }
        proof {
            assert(mapped@.take(i as int + 1).drop_last() =~= mapped@.take(i as int));
        }
        i = i + 1;
    }
    proof {
        assert(mapped@.take(i as int) =~= mapped@);
    }
    if cursor < size {
        areas.push((cursor, size - cursor));
    }
    proof {
        law_gaps_are_ordered(size, mapped@);
        if areas_rising(mapped@) {
            assert forall|x: int| #[trigger] areas_have(areas@, x) <==> 0 <= x < size
                && !areas_have(mapped@, x) by {
                law_gaps_hold_what_is_not_mapped(size, mapped@, x);
            }
        }
    }
    areas
}

/// The order of pairs: by the first component, then by the second.
pub open spec fn pair_le(a: (u64, u64), b: (u64, u64)) -> bool {
    a.0 < b.0 || (a.0 == b.0 && a.1 <= b.1)
}

/// Whether the pairs come in rising order.
pub open spec fn pairs_sorted(pairs: Seq<(u64, u64)>) -> bool {
    forall|i: int, j: int|
        0 <= i < j < pairs.len() ==> pair_le(#[trigger] pairs[i], #[trigger] pairs[j])
}

/// The same pairs in rising order.
pub open spec fn sorted_pairs(pairs: Seq<(u64, u64)>) -> Seq<(u64, u64)> {
    pairs.sort_by(|a: (u64, u64), b: (u64, u64)| pair_le(a, b))
}

/// Sorting puts the same pairs in rising order, and there is one way only to do so.
pub proof fn law_sorted_pairs(pairs: Seq<(u64, u64)>, sorted: Seq<(u64, u64)>)
    ensures
        pairs_sorted(sorted_pairs(pairs)),
        sorted_pairs(pairs).to_multiset() == pairs.to_multiset(),
        forall|i: int, j: int|
            0 <= i < j < sorted_pairs(pairs).len() ==> {
                let a = #[trigger] sorted_pairs(pairs)[i];
                let b = #[trigger] sorted_pairs(pairs)[j];
                a.0 < b.0 || (a.0 == b.0 && a.1 <= b.1)
            },
        pairs_sorted(sorted) && sorted.to_multiset() == pairs.to_multiset() ==> sorted
            == sorted_pairs(pairs),
{
    let leq = |a: (u64, u64), b: (u64, u64)| pair_le(a, b);
    assert(vstd::relations::total_ordering(leq));
    pairs.lemma_sort_by_ensures(leq);
    assert(pairs_sorted(sorted_pairs(pairs))) by {
        let all = sorted_pairs(pairs);
        assert forall|i: int, j: int| 0 <= i < j < all.len() implies pair_le(
            #[trigger] all[i],
            #[trigger] all[j],
        ) by {
            assert(leq(all[i], all[j]));
        }
    }
    if pairs_sorted(sorted) && sorted.to_multiset() == pairs.to_multiset() {
        vstd::seq_lib::lemma_sorted_unique(sorted, sorted_pairs(pairs), leq);
    }
}

/// Returns the same pairs in rising order.
pub fn sort_pairs(pairs: &[(u64, u64)]) -> (sorted: Vec<(u64, u64)>)
    ensures
        sorted@ == sorted_pairs(pairs@),
        pairs_sorted(sorted@),
        sorted@.to_multiset() == pairs@.to_multiset(),
{
    let mut sorted: Vec<(u64, u64)> = Vec::new();
    let mut i: usize = 0;
    proof {
        assert(sorted@ =~= pairs@.take(0));
    }
    while i < pairs.len()
        invariant
            i <= pairs@.len(),
            pairs_sorted(sorted@),
            sorted@.to_multiset() == pairs@.take(i as int).to_multiset(),
        decreases pairs@.len() - i,
    {
        let pair = pairs[i];
        let mut at: usize = sorted.len();
        while at > 0 && (pair.0 < sorted[at - 1].0 || (pair.0 == sorted[at - 1].0 && pair.1
            < sorted[at - 1].1))
            invariant
                at <= sorted@.len(),
                forall|k: int| at <= k < sorted@.len() ==> pair_le(pair, #[trigger] sorted@[k]),
            decreases at,
        {
            at = at - 1;
        }
        let ghost before = sorted@;
        sorted.insert(at, pair);
        proof {
            lemma_insert_multiset(before, at as int, pair);
            let upto = pairs@.take(i as int + 1);
            assert(upto =~= pairs@.take(i as int).push(pair));
            pairs@.take(i as int).to_multiset_ensures();
            assert(pairs_sorted(sorted@)) by {
                assert forall|a: int, b: int| 0 <= a < b < sorted@.len() implies pair_le(
                    #[trigger] sorted@[a],
                    #[trigger] sorted@[b],
                ) by {
                    if a < at && at <= b {
                        if b > at {
                            assert(pair_le(before[a], before[b - 1]));
                        }
                        if at > 0 {
                            assert(a == at - 1 || pair_le(before[a], before[at - 1]));
                        }
                    }
                }
            }
        }
        i = i + 1;
    }
    proof {
        assert(pairs@.take(i as int) =~= pairs@);
        law_sorted_pairs(pairs@, sorted@);
    }
    sorted
}

proof fn lemma_insert_multiset(s: Seq<(u64, u64)>, at: int, pair: (u64, u64))
    requires
        0 <= at <= s.len(),
    ensures
        s.insert(at, pair).to_multiset() == s.to_multiset().insert(pair),
{
    let longer = s.insert(at, pair);
    longer.to_multiset_ensures();
    assert(longer.remove(at) =~= s);
    assert(longer[at] == pair);
    assert(longer.contains(pair));
    assert(longer.to_multiset() =~= s.to_multiset().insert(pair));
}

/// Reordering areas does not change which points they hold.
pub proof fn law_reordered_areas_hold_the_same(a: Seq<(u64, u64)>, b: Seq<(u64, u64)>, x: int)
    requires
        a.to_multiset() == b.to_multiset(),
    ensures
        areas_have(a, x) == areas_have(b, x),
{
    a.to_multiset_ensures();
    b.to_multiset_ensures();
    if areas_have(a, x) {
        let i = choose|i: int| 0 <= i < a.len() && area_has(#[trigger] a[i], x);
        assert(a.contains(a[i]));
        assert(b.to_multiset().count(a[i]) > 0);
        assert(b.contains(a[i]));
        let j = choose|j: int| 0 <= j < b.len() && b[j] == a[i];
        assert(area_has(b[j], x));
    }
    if areas_have(b, x) {
        let i = choose|i: int| 0 <= i < b.len() && area_has(#[trigger] b[i], x);
        assert(b.contains(b[i]));
        assert(a.to_multiset().count(b[i]) > 0);
        assert(a.contains(b[i]));
        let j = choose|j: int| 0 <= j < a.len() && a[j] == b[i];
        assert(area_has(a[j], x));
    }
}

/// Whether there is room between any piece and each later one.
spec fn pieces_apart(pieces: Seq<(u64, u64)>) -> bool {
    forall|i: int, j: int|
        0 <= i < j < pieces.len() ==> (#[trigger] pieces[i]).1 < (#[trigger] pieces[j]).0
}

proof fn lemma_rest_within(pieces: Seq<(u64, u64)>)
    requires
        pieces.len() > 0,
        pieces_apart(pieces),
    ensures
        pieces_within(pieces.drop_last(), 0, pieces.last().0 - 1),
        pieces_apart(pieces.drop_last()),
{
    let rest = pieces.drop_last();
    assert forall|i: int| 0 <= i < rest.len() implies 0 <= (#[trigger] rest[i]).0 && rest[i].1
        <= pieces.last().0 - 1 by {
        assert(pieces[i].1 < pieces[pieces.len() - 1].0);
    }
}

proof fn lemma_cut_each_apart(pieces: Seq<(u64, u64)>, hole: (u64, u64))
    requires
        pieces_apart(pieces),
        hole.0 < hole.1,
    ensures
        pieces_apart(cut_each(pieces, hole)),
    decreases pieces.len(),
{
    if pieces.len() > 0 {
        let rest = pieces.drop_last();
        lemma_rest_within(pieces);
        lemma_cut_each_apart(rest, hole);
        lemma_cut_each_within(rest, hole, 0, pieces.last().0 - 1);
    }
}

proof fn lemma_pieces_left_apart(start: u64, end: u64, holes: Seq<(u64, u64)>)
    requires
        forall|i: int| 0 <= i < holes.len() ==> (#[trigger] holes[i]).0 < holes[i].1,
    ensures
        pieces_apart(pieces_left(start, end, holes)),
    decreases holes.len(),
{
    if holes.len() > 0 {
        let rest = holes.drop_last();
        assert forall|i: int| 0 <= i < rest.len() implies (#[trigger] rest[i]).0 < rest[i].1 by {
            assert(holes[i].0 < holes[i].1);
        }
        lemma_pieces_left_apart(start, end, rest);
        assert(holes[holes.len() - 1].0 < holes[holes.len() - 1].1);
        lemma_cut_each_apart(pieces_left(start, end, rest), holes.last());
    }
}

proof fn lemma_as_areas_apart(pieces: Seq<(u64, u64)>)
    requires
        pieces_apart(pieces),
    ensures
        forall|i: int, j: int|
            0 <= i < j < as_areas(pieces).len() ==> (#[trigger] as_areas(pieces)[i]).0 + as_areas(
                pieces,
            )[i].1 < (#[trigger] as_areas(pieces)[j]).0,
    decreases pieces.len(),
{
    if pieces.len() > 0 {
        let rest = pieces.drop_last();
        lemma_rest_within(pieces);
        lemma_as_areas_apart(rest);
        lemma_as_areas_shape(rest, 0, pieces.last().0 - 1);
    }
}

/// What is left of `[start, end)` is not split further than the holes split it: where no hole is
/// empty, there is room between any two of the areas.
pub proof fn law_areas_left_are_whole(start: u64, end: u64, holes: Seq<(u64, u64)>)
    requires
        forall|i: int| 0 <= i < holes.len() ==> (#[trigger] holes[i]).0 < holes[i].1,
    ensures
        forall|i: int, j: int|
            0 <= i < j < areas_left(start, end, holes).len() ==> (#[trigger] areas_left(
                start,
                end,
                holes,
            )[i]).0 + areas_left(start, end, holes)[i].1 < (#[trigger] areas_left(
                start,
                end,
                holes,
            )[j]).0,
{
    lemma_pieces_left_apart(start, end, holes);
    lemma_as_areas_apart(pieces_left(start, end, holes));
}

proof fn lemma_sweep_gaps_apart(size: u64, mapped: Seq<(u64, u64)>)
    requires
        forall|i: int| 0 <= i < mapped.len() ==> (#[trigger] mapped[i]).1 > 0,
    ensures
        forall|i: int|
            0 <= i < sweep_gaps(size, mapped).len() ==> sweep_end(size, mapped) == size || (
            #[trigger] sweep_gaps(size, mapped)[i]).0 + sweep_gaps(size, mapped)[i].1 < sweep_end(
                size,
                mapped,
            ),
        forall|i: int, j: int|
            0 <= i < j < sweep_gaps(size, mapped).len() ==> (#[trigger] sweep_gaps(
                size,
                mapped,
            )[i]).0 + sweep_gaps(size, mapped)[i].1 < (#[trigger] sweep_gaps(size, mapped)[j]).0,
    decreases mapped.len(),
{
    lemma_sweep_shape(size, mapped);
    if mapped.len() > 0 {
        let rest = mapped.drop_last();
        assert forall|i: int| 0 <= i < rest.len() implies (#[trigger] rest[i]).1 > 0 by {
            assert(mapped[i].1 > 0);
        }
        assert(mapped[mapped.len() - 1].1 > 0);
        lemma_sweep_shape(size, rest);
        lemma_sweep_gaps_apart(size, rest);
        let before = sweep_gaps(size, rest);
        let gaps = sweep_gaps(size, mapped);
        assert forall|i: int| 0 <= i < gaps.len() implies sweep_end(size, mapped) == size || (
        #[trigger] gaps[i]).0 + gaps[i].1 < sweep_end(size, mapped) by {
            if i < before.len() {
                assert(gaps[i] == before[i]);
            }
        }
        assert forall|i: int, j: int| 0 <= i < j < gaps.len() implies (#[trigger] gaps[i]).0
            + gaps[i].1 < (#[trigger] gaps[j]).0 by {
            assert(gaps[i] == before[i]);
            if j < before.len() {
                assert(gaps[j] == before[j]);
            }
        }
    }
}

/// The gaps are not split further than the mapped areas split them: where no mapped area is empty,
/// there is room between any two of the gaps.
pub proof fn law_gaps_are_whole(size: u64, mapped: Seq<(u64, u64)>)
    requires
        forall|i: int| 0 <= i < mapped.len() ==> (#[trigger] mapped[i]).1 > 0,
    ensures
        forall|i: int, j: int|
            0 <= i < j < gaps_of(size, mapped).len() ==> (#[trigger] gaps_of(size, mapped)[i]).0
                + gaps_of(size, mapped)[i].1 < (#[trigger] gaps_of(size, mapped)[j]).0,
{
    lemma_sweep_gaps_apart(size, mapped);
    lemma_sweep_shape(size, mapped);
    let before = sweep_gaps(size, mapped);
    let gaps = gaps_of(size, mapped);
    assert forall|i: int, j: int| 0 <= i < j < gaps.len() implies (#[trigger] gaps[i]).0
        + gaps[i].1 < (#[trigger] gaps[j]).0 by {
        assert(gaps[i] == before[i]);
        if j < before.len() {
            assert(gaps[j] == before[j]);
        }
    }
}

} // verus!
