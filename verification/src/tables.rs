use vstd::prelude::*;

verus! {

/// One-square steps of the king, one ray per direction.
pub const KING_MOVES: [[(isize, isize); 1]; 8] = [
    [(-1, -1)], [(-1, 0)], [(-1, 1)],
    [(0, -1)], [(0, 1)],
    [(1, -1)], [(1, 0)], [(1, 1)],
];

/// The rook's four rays as (file, rank) offsets: towards file 0, towards
/// file 7, towards rank 0, towards rank 7; nearest square first.
pub const ROOK_MOVES: [[(isize, isize); 7]; 4] = [
    [(-1, 0), (-2, 0), (-3, 0), (-4, 0), (-5, 0), (-6, 0), (-7, 0)],
    [(1, 0), (2, 0), (3, 0), (4, 0), (5, 0), (6, 0), (7, 0)],
    [(0, -1), (0, -2), (0, -3), (0, -4), (0, -5), (0, -6), (0, -7)],
    [(0, 1), (0, 2), (0, 3), (0, 4), (0, 5), (0, 6), (0, 7)],
];

/// The bishop's four diagonal rays, nearest square first.
pub const BISHOP_MOVES: [[(isize, isize); 7]; 4] = [
    [(-1, -1), (-2, -2), (-3, -3), (-4, -4), (-5, -5), (-6, -6), (-7, -7)],
    [(1, -1), (2, -2), (3, -3), (4, -4), (5, -5), (6, -6), (7, -7)],
    [(-1, 1), (-2, 2), (-3, 3), (-4, 4), (-5, 5), (-6, 6), (-7, 7)],
    [(1, 1), (2, 2), (3, 3), (4, 4), (5, 5), (6, 6), (7, 7)],
];

/// The knight's eight jumps, one per ray.
pub const KNIGHT_MOVES: [[(isize, isize); 1]; 8] = [
    [(-1, -2)], [(-2, -1)], [(1, -2)], [(-2, 1)], [(2, -1)], [(-1, 2)], [(1, 2)], [(2, 1)],
];

/// The queen's eight rays: the rook's followed by the bishop's, in the same order.
pub const QUEEN_MOVES: [[(isize, isize); 7]; 8] = [
    [(-1, 0), (-2, 0), (-3, 0), (-4, 0), (-5, 0), (-6, 0), (-7, 0)],
    [(1, 0), (2, 0), (3, 0), (4, 0), (5, 0), (6, 0), (7, 0)],
    [(0, -1), (0, -2), (0, -3), (0, -4), (0, -5), (0, -6), (0, -7)],
    [(0, 1), (0, 2), (0, 3), (0, 4), (0, 5), (0, 6), (0, 7)],
    [(-1, -1), (-2, -2), (-3, -3), (-4, -4), (-5, -5), (-6, -6), (-7, -7)],
    [(1, -1), (2, -2), (3, -3), (4, -4), (5, -5), (6, -6), (7, -7)],
    [(-1, 1), (-2, 2), (-3, 3), (-4, 4), (-5, 5), (-6, 6), (-7, 7)],
    [(1, 1), (2, 2), (3, 3), (4, 4), (5, 5), (6, 6), (7, 7)],
];

/// A move table seen as a sequence of rays, each a sequence of (file, rank) offsets.
pub open spec fn table_view<const T: usize, const N: usize>(
    t: [[(isize, isize); T]; N],
) -> Seq<Seq<(isize, isize)>> {
    Seq::new(N as nat, |j: int| t@[j]@)
}

/// Every offset of the table, added to a file and a rank of the square
/// `index`, stays within `isize`.
pub open spec fn table_fits<const T: usize, const N: usize>(
    t: [[(isize, isize); T]; N],
    index: usize,
) -> bool {
    forall|j: int, k: int|
        0 <= j < N && 0 <= k < T ==> {
            &&& isize::MIN <= (index % 8) + (#[trigger] t@[j]@[k]).0 <= isize::MAX
            &&& isize::MIN <= (index / 8) + t@[j]@[k].1 <= isize::MAX
        }
}

} // verus!
verus! {

/// Every offset of the table moves at most seven files and seven ranks.
pub open spec fn table_small<const T: usize, const N: usize>(t: [[(isize, isize); T]; N]) -> bool {
    forall|j: int, k: int|
        0 <= j < N && 0 <= k < T ==> {
            &&& -7 <= (#[trigger] t@[j]@[k]).0 <= 7
            &&& -7 <= t@[j]@[k].1 <= 7
        }
}

/// All five piece tables are small.
pub proof fn lemma_tables_small()
    ensures
        table_small(KING_MOVES),
        table_small(KNIGHT_MOVES),
        table_small(ROOK_MOVES),
        table_small(BISHOP_MOVES),
        table_small(QUEEN_MOVES),
{
    assert(table_small(QUEEN_MOVES)) by {
        assert forall|j: int, k: int| 0 <= j < 8 && 0 <= k < 7 implies {
            &&& -7 <= (#[trigger] QUEEN_MOVES@[j]@[k]).0 <= 7
            &&& -7 <= QUEEN_MOVES@[j]@[k].1 <= 7
        } by {
            assert(0 <= j < 8);
        }
    }
}

} // verus!

verus! {

/// A small table fits around any square index.
pub proof fn lemma_small_fits<const T: usize, const N: usize>(t: [[(isize, isize); T]; N], index: usize)
    requires
        table_small(t),
    ensures
        table_fits(t, index),
{
    assert(index / 8 + 7 <= isize::MAX) by {
        assert(usize::MAX == 0xffff_ffff || usize::MAX == 0xffff_ffff_ffff_ffff);
        assert(isize::MAX == 0x7fff_ffff || isize::MAX == 0x7fff_ffff_ffff_ffff);
        assert(usize::MAX == 0xffff_ffff ==> isize::MAX == 0x7fff_ffff);
    }
}

} // verus!

verus! {

/// No two entries of the table are the same offset, and no entry is the null offset.
pub open spec fn table_distinct<const T: usize, const N: usize>(t: [[(isize, isize); T]; N]) -> bool {
    &&& forall|j: int, k: int| 0 <= j < N && 0 <= k < T ==> (#[trigger] t@[j]@[k]) != (0isize, 0isize)
    &&& forall|j1: int, k1: int, j2: int, k2: int|
        0 <= j1 < N && 0 <= k1 < T && 0 <= j2 < N && 0 <= k2 < T && (j1 != j2 || k1 != k2) ==> #[trigger] t@[j1]@[k1]
            != #[trigger] t@[j2]@[k2]
}

/// All five piece tables have distinct, non-null entries.
pub proof fn lemma_tables_distinct()
    ensures
        table_distinct(KING_MOVES),
        table_distinct(KNIGHT_MOVES),
        table_distinct(ROOK_MOVES),
        table_distinct(BISHOP_MOVES),
        table_distinct(QUEEN_MOVES),
{
}

/// Every king step moves at most one file and one rank.
pub proof fn lemma_king_steps()
    ensures
        forall|j: int| 0 <= j < 8 ==> -1 <= (#[trigger] KING_MOVES@[j]@[0]).0 <= 1 && -1 <= KING_MOVES@[j]@[0].1 <= 1,
{
}

} // verus!

verus! {

/// The ray goes seven squares in direction (dx, dy): entry k is (k + 1)
/// times the direction.
pub open spec fn row_is_ray(row: Seq<(isize, isize)>, dx: int, dy: int) -> bool {
    &&& row.len() == 7
    &&& forall|k: int| 0 <= k < 7 ==> (#[trigger] row[k]).0 == (k + 1) * dx && row[k].1 == (k + 1) * dy
}

/// The rays of the rook, bishop and queen tables.
pub proof fn lemma_slider_rows()
    ensures
        row_is_ray(ROOK_MOVES@[0]@, -1, 0),
        row_is_ray(ROOK_MOVES@[1]@, 1, 0),
        row_is_ray(ROOK_MOVES@[2]@, 0, -1),
        row_is_ray(ROOK_MOVES@[3]@, 0, 1),
        row_is_ray(BISHOP_MOVES@[0]@, -1, -1),
        row_is_ray(BISHOP_MOVES@[1]@, 1, -1),
        row_is_ray(BISHOP_MOVES@[2]@, -1, 1),
        row_is_ray(BISHOP_MOVES@[3]@, 1, 1),
        row_is_ray(QUEEN_MOVES@[0]@, -1, 0),
        row_is_ray(QUEEN_MOVES@[1]@, 1, 0),
        row_is_ray(QUEEN_MOVES@[2]@, 0, -1),
        row_is_ray(QUEEN_MOVES@[3]@, 0, 1),
        row_is_ray(QUEEN_MOVES@[4]@, -1, -1),
        row_is_ray(QUEEN_MOVES@[5]@, 1, -1),
        row_is_ray(QUEEN_MOVES@[6]@, -1, 1),
        row_is_ray(QUEEN_MOVES@[7]@, 1, 1),
{
}

} // verus!

verus! {

/// Every knight entry is a knight's jump: one file and two ranks, or two
/// files and one rank.
pub proof fn lemma_knight_jumps()
    ensures
        forall|j: int|
            0 <= j < 8 ==> {
                let d = #[trigger] KNIGHT_MOVES@[j]@[0];
                ((d.0 == 1 || d.0 == -1) && (d.1 == 2 || d.1 == -2)) || ((d.0 == 2 || d.0 == -2) && (d.1 == 1
                    || d.1 == -1))
            },
{
}

} // verus!
