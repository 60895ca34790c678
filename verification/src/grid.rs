//! The spatial grid: the play-field split into rows × columns of buckets,
//! each bucket the set of entity ids believed to occupy that cell.  Systems
//! use it to restrict collision checks to nearby entities.
use vstd::prelude::*;
use crate::math::{clamp_spec, clamp_usize};
use crate::vec2::{in_box, Vec2, COORD_LIMIT};

verus! {

/// The tunable scale factor of the bucket mapping: a position `x` in a field
/// of width `w` lands in raw column `(x * GRID_FACTOR) / w`.
pub const GRID_FACTOR: u64 = 10;

/// Raw cell coordinate along one axis before clamping: zero for positions
/// left of the field, otherwise `(v * GRID_FACTOR) / extent` rounded down.
pub open spec fn raw_cell(v: int, extent: int) -> int
    recommends
        extent >= 1,
{
    if v <= 0 {
        0
    } else {
        (v * GRID_FACTOR) / extent
    }
}

/// Cell coordinate along one axis: the raw coordinate clamped into
/// `[1, cells - 1]`.
pub open spec fn cell_coord(v: int, extent: int, cells: int) -> int
    recommends
        extent >= 1,
        cells >= 2,
{
    clamp_spec(raw_cell(v, extent), 1, cells - 1)
}

/// Bucket index for a position: deterministic in the position and the field
/// size, and always within `[0, rows * columns - 1]`.
pub open spec fn bucket_index_spec(
    pos: Vec2,
    width: int,
    height: int,
    columns: int,
    rows: int,
) -> int {
    let col = cell_coord(pos.x as int, width, columns);
    let row = cell_coord(pos.y as int, height, rows);
    clamp_spec(col + row * columns, 0, rows * columns - 1)
}

/// The bucket index lies within the grid.
pub proof fn lemma_bucket_index_in_range(
    pos: Vec2,
    width: int,
    height: int,
    columns: int,
    rows: int,
)
    requires
        width >= 1,
        height >= 1,
        columns >= 2,
        rows >= 2,
    ensures
        0 <= bucket_index_spec(pos, width, height, columns, rows) < rows * columns,
{
    let col = cell_coord(pos.x as int, width, columns);
    let row = cell_coord(pos.y as int, height, rows);
    assert(1 <= col <= columns - 1);
    assert(1 <= row <= rows - 1);
    assert(col + row * columns <= (columns - 1) + (rows - 1) * columns) by (nonlinear_arith)
        requires
            col <= columns - 1,
            1 <= row <= rows - 1,
            columns >= 2,
    ;
    assert((columns - 1) + (rows - 1) * columns == rows * columns - 1) by (nonlinear_arith);
    assert(rows * columns >= 4) by (nonlinear_arith)
        requires
            rows >= 2,
            columns >= 2,
    ;
}

/// A rows × columns grid of buckets of entity ids.
pub struct Grid {
    columns: usize,
    rows: usize,
    buckets: Vec<Vec<usize>>,
}

impl Grid {
    /// Number of columns.
    pub closed spec fn spec_columns(&self) -> int {
        self.columns as int
    }

    /// Number of rows.
    pub closed spec fn spec_rows(&self) -> int {
        self.rows as int
    }

    /// Number of buckets.
    pub open spec fn total(&self) -> int {
        self.spec_rows() * self.spec_columns()
    }

    /// The ids recorded in bucket `i`, in insertion order.
    pub closed spec fn bucket_seq(&self, i: int) -> Seq<usize> {
        self.buckets@[i]@
    }

    /// Whether bucket `i` records `id`.
    pub open spec fn bucket_has(&self, i: int, id: usize) -> bool {
        self.bucket_seq(i).contains(id)
    }

    /// `id` is recorded in no bucket other than `r`.
    pub open spec fn only_in(&self, id: usize, r: int) -> bool {
        forall|j: int| 0 <= j < self.total() && j != r ==> !self.bucket_has(j, id)
    }

    /// A well-formed grid: at least a 2 × 2 of buckets, one vector per
    /// bucket, and no bucket recording an id twice.
    pub closed spec fn wf(&self) -> bool {
        &&& self.columns >= 2
        &&& self.rows >= 2
        &&& self.buckets@.len() == self.total()
        &&& forall|i: int| 0 <= i < self.total() ==> self.bucket_seq(i).no_duplicates()
    }

    /// The bucket index of `pos` in this grid.
    pub open spec fn index_of(&self, pos: Vec2, width: int, height: int) -> int {
        bucket_index_spec(pos, width, height, self.spec_columns(), self.spec_rows())
    }

    /// A well-formed grid's dimensions: at least two rows and columns, and
    /// a bucket count that fits in a `usize`.
    pub proof fn lemma_total_fits(&self)
        requires
            self.wf(),
        ensures
            self.spec_columns() >= 2,
            self.spec_rows() >= 2,
            self.total() <= usize::MAX,
    {
        broadcast use vstd::std_specs::vec::axiom_spec_len;

        assert(vstd::std_specs::vec::spec_vec_len(&self.buckets) == self.buckets@.len());
    }

    /// A grid of `rows` × `columns` empty buckets.
    pub fn new(rows: usize, columns: usize) -> (r: Grid)
        requires
            2 <= rows,
            2 <= columns,
            rows * columns <= usize::MAX,
        ensures
            r.wf(),
            r.spec_rows() == rows,
            r.spec_columns() == columns,
            forall|i: int, id: usize| 0 <= i < r.total() ==> !r.bucket_has(i, id),
    {
        let total = rows * columns;
        let mut buckets: Vec<Vec<usize>> = Vec::new();
        let mut i: usize = 0;
        while i < total
            invariant
                i <= total,
                buckets@.len() == i,
                forall|j: int| 0 <= j < i ==> buckets@[j]@ =~= Seq::<usize>::empty(),
            decreases total - i,
        {
            buckets.push(Vec::new());
            i = i + 1;
        }
        Grid { columns, rows, buckets }
    }

    /// Number of buckets.
    pub fn bucket_count(&self) -> (r: usize)
        requires
            self.wf(),
        ensures
            r == self.total(),
    {
        self.buckets.len()
    }

    /// Computes the bucket index of `pos` for a field of `width` × `height`.
    pub fn bucket_index(&self, pos: &Vec2, width: i64, height: i64) -> (r: usize)
        requires
            self.wf(),
            width >= 1,
            height >= 1,
            in_box(*pos, COORD_LIMIT as int),
        ensures
            r == self.index_of(*pos, width as int, height as int),
            0 <= r < self.total(),
    {
        proof {
            lemma_bucket_index_in_range(
                *pos,
                width as int,
                height as int,
                self.spec_columns(),
                self.spec_rows(),
            );
        }
        let col_raw: u64 = if pos.x <= 0 {
            0
        } else {
            (pos.x as u64 * GRID_FACTOR) / (width as u64)
        };
        let row_raw: u64 = if pos.y <= 0 {
            0
        } else {
            (pos.y as u64 * GRID_FACTOR) / (height as u64)
        };
        let col: u64 = if col_raw < 1 {
            1
        } else if col_raw > (self.columns - 1) as u64 {
            (self.columns - 1) as u64
        } else {
            col_raw
        };
        let row: u64 = if row_raw < 1 {
            1
        } else if row_raw > (self.rows - 1) as u64 {
            (self.rows - 1) as u64
        } else {
            row_raw
        };
        assert(col == cell_coord(pos.x as int, width as int, self.spec_columns()));
        assert(row == cell_coord(pos.y as int, height as int, self.spec_rows()));
        assert(col + row * self.columns <= self.spec_rows() * self.spec_columns() - 1)
            by (nonlinear_arith)
            requires
                1 <= col <= self.spec_columns() - 1,
                1 <= row <= self.spec_rows() - 1,
                self.spec_columns() >= 2,
                self.spec_rows() >= 2,
        ;
        let cap = self.buckets.len();
        assert(self.total() == cap);
        let idx = (col as usize) + (row as usize) * self.columns;
        clamp_usize(idx, 0, cap - 1)
    }

    /// Removes `id` from bucket `i`; recordings of other ids are untouched.
    pub fn remove(&mut self, i: usize, id: usize)
        requires
            old(self).wf(),
            i < old(self).total(),
        ensures
            final(self).wf(),
            final(self).spec_rows() == old(self).spec_rows(),
            final(self).spec_columns() == old(self).spec_columns(),
            !final(self).bucket_has(i as int, id),
            forall|j: int, o: usize|
                0 <= j < final(self).total() && !(j == i && o == id) ==> final(self).bucket_has(
                    j,
                    o,
                ) == old(self).bucket_has(j, o),
    {
        let ghost olds = self.bucket_seq(i as int);
        let bucket = &self.buckets[i];
        let n = bucket.len();
        let mut fresh: Vec<usize> = Vec::new();
        let mut j: usize = 0;
        while j < n
            invariant
                j <= n,
                n == olds.len(),
                bucket@ == olds,
                fresh@.no_duplicates(),
                forall|o: usize| #[trigger] fresh@.contains(o) <==> (olds.take(
                    j as int,
                ).contains(o) && o != id),
            decreases n - j,
        {
            let v = bucket[j];
            proof {
                olds.lemma_take_succ_push(j as int);
            }
            if v != id {
                proof {
                    assert(!fresh@.contains(v)) by {
                        if fresh@.contains(v) {
                            assert(olds.take(j as int).contains(v));
                            let k = choose|k: int|
                                0 <= k < j && #[trigger] olds.take(j as int)[k] == v;
                            assert(olds[k] == v && olds[j as int] == v && k != j);
                        }
                    }
                }
                let ghost pre = fresh@;
                fresh.push(v);
                proof {
                    assert(fresh@ =~= pre.push(v));
                    assert(fresh@.no_duplicates()) by {
                        assert forall|a: int, b: int|
                            0 <= a < fresh@.len() && 0 <= b < fresh@.len() && a != b implies fresh@[a]
                            != fresh@[b] by {
                            if a < pre.len() && b < pre.len() {
                                assert(pre[a] == fresh@[a] && pre[b] == fresh@[b]);
                            } else if a == pre.len() && b < pre.len() {
                                assert(pre.contains(pre[b]));
                            } else if b == pre.len() && a < pre.len() {
                                assert(pre.contains(pre[a]));
                            }
                        }
                    }
                    assert forall|o: usize| #[trigger] fresh@.contains(o) implies (olds.take(
                        j as int + 1,
                    ).contains(o) && o != id) by {
                        let k = choose|k: int| 0 <= k < fresh@.len() && #[trigger] fresh@[k] == o;
                        if k < pre.len() {
                            assert(pre.contains(o));
                            assert(olds.take(j as int).contains(o));
                            let m = choose|m: int|
                                0 <= m < j && #[trigger] olds.take(j as int)[m] == o;
                            assert(olds.take(j as int + 1)[m] == o);
                        } else {
                            assert(o == v);
                            assert(olds.take(j as int + 1)[j as int] == v);
                        }
                    }
                    assert forall|o: usize|
                        olds.take(j as int + 1).contains(o) && o != id implies #[trigger] fresh@.contains(
                        o,
                    ) by {
                        let k = choose|k: int|
                            0 <= k < j + 1 && #[trigger] olds.take(j as int + 1)[k] == o;
                        if k < j {
                            assert(olds.take(j as int)[k] == o);
                            assert(pre.contains(o));
                            let m = choose|m: int| 0 <= m < pre.len() && #[trigger] pre[m] == o;
                            assert(fresh@[m] == o);
                        } else {
                            assert(o == v);
                            assert(fresh@[pre.len() as int] == v);
                        }
                    }
                }
            } else {
                proof {
                    assert forall|o: usize| #[trigger] fresh@.contains(o) implies (olds.take(
                        j as int + 1,
                    ).contains(o) && o != id) by {
                        assert(olds.take(j as int).contains(o));
                        let k = choose|k: int|
                            0 <= k < j && #[trigger] olds.take(j as int)[k] == o;
                        assert(olds.take(j as int + 1)[k] == o);
                    }
                    assert forall|o: usize|
                        olds.take(j as int + 1).contains(o) && o != id implies #[trigger] fresh@.contains(
                        o,
                    ) by {
                        let k = choose|k: int|
                            0 <= k < j + 1 && #[trigger] olds.take(j as int + 1)[k] == o;
                        if k < j {
                            assert(olds.take(j as int)[k] == o);
                        } else {
                            assert(o == id);
                        }
                    }
                }
            }
            j = j + 1;
        }
        proof {
            assert(olds.take(n as int) =~= olds);
        }
        self.buckets.set(i, fresh);
        proof {
            assert(final(self).bucket_seq(i as int) == fresh@);
            assert forall|j2: int, o: usize|
                0 <= j2 < final(self).total() && !(j2 == i && o == id) implies final(self).bucket_has(j2, o) == old(self).bucket_has(j2, o) by {
                if j2 != i {
                    assert(final(self).bucket_seq(j2) == old(self).bucket_seq(j2));
                }
            }
            assert forall|j2: int|
                0 <= j2 < final(self).total() implies final(self).bucket_seq(j2).no_duplicates() by {
                if j2 == i {
                    assert(final(self).bucket_seq(j2) == fresh@);
                } else {
                    assert(final(self).bucket_seq(j2) == old(self).bucket_seq(j2));
                }
            }
        }
    }

    /// Records `id` in bucket `i` unless it is already there.
    pub fn insert(&mut self, i: usize, id: usize)
        requires
            old(self).wf(),
            i < old(self).total(),
        ensures
            final(self).wf(),
            final(self).spec_rows() == old(self).spec_rows(),
            final(self).spec_columns() == old(self).spec_columns(),
            final(self).bucket_has(i as int, id),
            forall|j: int, o: usize|
                0 <= j < final(self).total() && !(j == i && o == id) ==> final(self).bucket_has(
                    j,
                    o,
                ) == old(self).bucket_has(j, o),
    {
        if !self.contains(i, id) {
            let ghost olds = self.bucket_seq(i as int);
            let bucket = &self.buckets[i];
            let n = bucket.len();
            let mut fresh: Vec<usize> = Vec::new();
            let mut j: usize = 0;
            while j < n
                invariant
                    j <= n,
                    n == olds.len(),
                    bucket@ == olds,
                    bucket == &old(self).buckets@[i as int],
                    fresh@ =~= olds.take(j as int),
                decreases n - j,
            {
                fresh.push(bucket[j]);
                proof {
                    assert(fresh@ =~= olds.take(j as int + 1));
                }
                j = j + 1;
            }
            proof {
                assert(olds.take(n as int) =~= olds);
            }
            let mut bucket = fresh;
            assert(bucket@ == olds);
            bucket.push(id);
            self.buckets.set(i, bucket);
            proof {
                let news = olds.push(id);
                assert(final(self).bucket_seq(i as int) == news);
                assert(final(self).bucket_has(i as int, id)) by {
                    assert(news[olds.len() as int] == id);
                }
                assert(news.no_duplicates()) by {
                    assert forall|a: int, b: int|
                        0 <= a < news.len() && 0 <= b < news.len() && a != b implies news[a]
                        != news[b] by {
                        if a < olds.len() && b < olds.len() {
                            assert(olds[a] == news[a] && olds[b] == news[b]);
                        } else if a == olds.len() && b < olds.len() {
                            assert(olds.contains(olds[b]));
                        } else if b == olds.len() && a < olds.len() {
                            assert(olds.contains(olds[a]));
                        }
                    }
                }
                assert forall|j: int, o: usize|
                    0 <= j < final(self).total() && !(j == i && o == id) implies final(self).bucket_has(j, o) == old(self).bucket_has(j, o) by {
                    if j == i {
                        if old(self).bucket_has(j, o) {
                            let k = choose|k: int| 0 <= k < olds.len() && #[trigger] olds[k] == o;
                            assert(news[k] == o);
                        }
                        if final(self).bucket_has(j, o) {
                            let k = choose|k: int|
                                0 <= k < news.len() && #[trigger] news[k] == o;
                            assert(k < olds.len());
                            assert(olds[k] == o);
                        }
                    } else {
                        assert(final(self).bucket_seq(j) == old(self).bucket_seq(j));
                    }
                }
                assert forall|j: int|
                    0 <= j < final(self).total() implies final(self).bucket_seq(
                    j,
                ).no_duplicates() by {
                    if j != i {
                        assert(final(self).bucket_seq(j) == old(self).bucket_seq(j));
                    }
                }
            }
        }
    }

    /// Whether bucket `i` records `id`.
    pub fn contains(&self, i: usize, id: usize) -> (r: bool)
        requires
            self.wf(),
            i < self.total(),
        ensures
            r == self.bucket_has(i as int, id),
    {
        let bucket = &self.buckets[i];
        let n = bucket.len();
        let mut j: usize = 0;
        while j < n
            invariant
                j <= n,
                n == bucket@.len(),
                bucket == &self.buckets@[i as int],
                forall|k: int| 0 <= k < j ==> bucket@[k] != id,
            decreases n - j,
        {
            if bucket[j] == id {
                return true;
            }
            j = j + 1;
        }
        false
    }

    /// Number of ids recorded in bucket `i`.
    pub fn bucket_len(&self, i: usize) -> (r: usize)
        requires
            self.wf(),
            i < self.total(),
        ensures
            r == self.bucket_seq(i as int).len(),
    {
        self.buckets[i].len()
    }

    /// The `j`-th id recorded in bucket `i`.
    pub fn bucket_get(&self, i: usize, j: usize) -> (r: usize)
        requires
            self.wf(),
            i < self.total(),
            j < self.bucket_seq(i as int).len(),
        ensures
            r == self.bucket_seq(i as int)[j as int],
            self.bucket_has(i as int, r),
    {
        self.buckets[i][j]
    }
}

} // verus!
