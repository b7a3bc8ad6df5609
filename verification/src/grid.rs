use crate::vector::Vector;
use vstd::prelude::*;

verus! {

/// The mathematical model of a grid: its dimensions together with the flat
/// row-major cell sequence. The cell at column `x`, row `y` sits at flat
/// offset `x + y * width`.
#[verifier::reject_recursive_types(T)]
pub ghost struct GridView<T> {
    pub width: int,
    pub height: int,
    pub cells: Seq<T>,
}

impl<T> GridView<T> {
    /// A model is well formed when it holds exactly `width * height` cells.
    pub open spec fn wf(self) -> bool {
        &&& self.width >= 0
        &&& self.height >= 0
        &&& self.cells.len() == self.width * self.height
    }

    /// A position is addressable iff both coordinates lie inside the
    /// dimensions.
    pub open spec fn in_bounds(self, pos: Vector) -> bool {
        &&& 0 <= pos.x < self.width
        &&& 0 <= pos.y < self.height
    }

    /// Row-major flat offset of a position.
    pub open spec fn index_of(self, pos: Vector) -> int {
        pos.x + pos.y * self.width
    }

    /// The cell addressed by an in-bounds position.
    pub open spec fn cell(self, pos: Vector) -> T
        recommends
            self.wf(),
            self.in_bounds(pos),
    {
        self.cells[self.index_of(pos)]
    }

    /// What a bounds-checked read returns: the addressed cell, or absence
    /// when the position is out of bounds.
    pub open spec fn get(self, pos: Vector) -> Option<T>
        recommends
            self.wf(),
    {
        if self.in_bounds(pos) {
            Some(self.cell(pos))
        } else {
            None
        }
    }

    /// The model after writing `value` at an in-bounds position: one cell
    /// replaced, the dimensions untouched.
    pub open spec fn set(self, pos: Vector, value: T) -> GridView<T>
        recommends
            self.wf(),
            self.in_bounds(pos),
    {
        GridView { cells: self.cells.update(self.index_of(pos), value), ..self }
    }

    /// The position visited at step `i` of a row-major traversal.
    pub open spec fn pos_at(self, i: int) -> Vector
        recommends
            self.width > 0,
    {
        Vector { x: (i % self.width) as i64, y: (i / self.width) as i64 }
    }

    /// The flat offset of an in-bounds position lies inside the cell
    /// sequence.
    pub proof fn lemma_index_of_in_range(self, pos: Vector)
        requires
            self.wf(),
            self.in_bounds(pos),
        ensures
            0 <= self.index_of(pos) < self.cells.len(),
    {
        assert(0 <= pos.x + pos.y * self.width < self.width * self.height) by (nonlinear_arith)
            requires
                0 <= pos.x < self.width,
                0 <= pos.y < self.height,
        ;
    }

    /// Law: a row-major traversal step visits the position it inverts, so
    /// every in-bounds position is visited at exactly its own flat offset.
    pub proof fn lemma_pos_at_index_of(self, pos: Vector)
        requires
            self.wf(),
            self.in_bounds(pos),
        ensures
            0 <= self.index_of(pos) < self.cells.len(),
            self.pos_at(self.index_of(pos)) == pos,
    {
        self.lemma_index_of_in_range(pos);
        vstd::arithmetic::div_mod::lemma_fundamental_div_mod_converse(
            self.index_of(pos),
            self.width,
            pos.y as int,
            pos.x as int,
        );
    }

    /// Law: the position visited at a traversal step is in bounds, and its
    /// flat offset is that step again.
    pub proof fn lemma_index_of_pos_at(self, i: int)
        requires
            self.wf(),
            0 <= i < self.cells.len(),
            self.width <= i64::MAX,
            self.height <= i64::MAX,
        ensures
            self.in_bounds(self.pos_at(i)),
            self.index_of(self.pos_at(i)) == i,
    {
        let w = self.width;
        let h = self.height;
        assert(0 < w && 0 < h) by (nonlinear_arith)
            requires
                0 <= w,
                0 <= h,
                0 <= i < w * h,
        ;
        vstd::arithmetic::div_mod::lemma_mod_division_less_than_divisor(i, w);
        vstd::arithmetic::div_mod::lemma_div_pos_is_pos(i, w);
        vstd::arithmetic::div_mod::lemma_multiply_divide_lt(i, w, h);
        vstd::arithmetic::div_mod::lemma_fundamental_div_mod(i, w);
        assert(w * (i / w) == (i / w) * w) by (nonlinear_arith);
    }

    /// Law: distinct row-major traversal steps visit distinct positions, so
    /// a full traversal yields every position exactly once.
    pub proof fn lemma_pos_at_injective(self, i: int, j: int)
        requires
            self.wf(),
            0 <= i < self.cells.len(),
            0 <= j < self.cells.len(),
            i != j,
            self.width <= i64::MAX,
            self.height <= i64::MAX,
        ensures
            self.pos_at(i) != self.pos_at(j),
    {
        self.lemma_index_of_pos_at(i);
        self.lemma_index_of_pos_at(j);
    }

    /// Law: writing `value` at an in-bounds position and then reading that
    /// position returns `value`, and the write keeps the model well formed.
    pub proof fn lemma_set_then_get(self, pos: Vector, value: T)
        requires
            self.wf(),
            self.in_bounds(pos),
        ensures
            self.set(pos, value).wf(),
            self.set(pos, value).get(pos) == Some(value),
    {
        self.lemma_index_of_in_range(pos);
    }

    /// Law: writing at an in-bounds position reads back unchanged at every
    /// other position.
    pub proof fn lemma_set_preserves_rest(self, pos: Vector, value: T, other: Vector)
        requires
            self.wf(),
            self.in_bounds(pos),
            other != pos,
        ensures
            self.set(pos, value).get(other) == self.get(other),
    {
        if self.in_bounds(other) {
            self.lemma_pos_at_index_of(pos);
            self.lemma_pos_at_index_of(other);
            assert(self.index_of(other) != self.index_of(pos));
        }
    }
}

/// The dimensions a grid can be built from: strictly positive, with a product
/// that fits the platform's addressable size.
pub open spec fn valid_dimensions(width: i64, height: i64) -> bool {
    &&& 0 < width
    &&& 0 < height
    &&& width * height <= usize::MAX
}

/// A heap-allocated two-dimensional grid of `T`, stored as one contiguous
/// row-major sequence of `width * height` elements.
#[derive(Clone, PartialEq, Eq, Hash)]
pub struct Grid<T> {
    raw: Vec<T>,
    dim: Vector,
}

impl<T> View for Grid<T> {
    type V = GridView<T>;

    closed spec fn view(&self) -> GridView<T> {
        GridView { width: self.dim.x as int, height: self.dim.y as int, cells: self.raw@ }
    }
}

/// Arithmetic facts about a row-major offset, used to justify computing it
/// in the platform's unsigned size type.
proof fn lemma_offset_arith(w: int, h: int, x: int, y: int)
    requires
        0 <= x < w,
        0 <= y < h,
    ensures
        0 <= y * w,
        y <= y * w,
        x + y * w < w * h,
        w <= w * h,
{
    assert(0 <= y * w && y <= y * w && x + y * w < w * h && w <= w * h) by (nonlinear_arith)
        requires
            0 <= x < w,
            0 <= y < h,
    ;
}

/// Converts positive dimensions into the flat allocation size.
fn size(width: i64, height: i64) -> (r: usize)
    requires
        valid_dimensions(width, height),
    ensures
        r == width * height,
{
    proof {
        assert(width <= width * height && height <= width * height) by (nonlinear_arith)
            requires
                0 < width,
                0 < height,
        ;
    }
    (width as usize) * (height as usize)
}

impl<T: Clone> Grid<T> {
    /// Constructs a grid with the given dimensions where every cell holds a
    /// clone of `value`.
    pub fn new(width: i64, height: i64, value: T) -> (r: Self)
        requires
            valid_dimensions(width, height),
        ensures
            r.wf(),
            r@.width == width,
            r@.height == height,
            forall|i: int| 0 <= i < r@.cells.len() ==> cloned::<T>(value, #[trigger] r@.cells[i]),
    {
        let n = size(width, height);
        let mut raw: Vec<T> = Vec::new();
        raw.resize(n, value);
        Grid { raw, dim: Vector { x: width, y: height } }
    }
}

impl<T: Default> Grid<T> {
    /// Constructs a grid with the given dimensions where every cell holds a
    /// freshly computed default value of `T`.
    pub fn default(width: i64, height: i64) -> (r: Self)
        requires
            valid_dimensions(width, height),
        ensures
            r.wf(),
            r@.width == width,
            r@.height == height,
            forall|i: int|
                0 <= i < r@.cells.len() ==> call_ensures(T::default, (), #[trigger] r@.cells[i]),
    {
        let n = size(width, height);
        let mut raw: Vec<T> = Vec::new();
        while raw.len() < n
            invariant
                raw@.len() <= n,
                forall|i: int|
                    0 <= i < raw@.len() ==> call_ensures(T::default, (), #[trigger] raw@[i]),
            decreases n - raw@.len(),
        {
            raw.push(T::default());
        }
        Grid { raw, dim: Vector { x: width, y: height } }
    }
}

impl<T> Grid<T> {
    /// Every grid a constructor hands out is well formed, and every method
    /// preserves this.
    pub open spec fn wf(&self) -> bool {
        self@.wf()
    }

    /// Constructs a grid with the given dimensions where every cell holds a
    /// value freshly computed by `f`, invoked once per cell in row-major
    /// order.
    pub fn from_simple_fn<F: Fn() -> T>(width: i64, height: i64, f: F) -> (r: Self)
        requires
            valid_dimensions(width, height),
            call_requires(f, ()),
        ensures
            r.wf(),
            r@.width == width,
            r@.height == height,
            forall|i: int| 0 <= i < r@.cells.len() ==> call_ensures(f, (), #[trigger] r@.cells[i]),
    {
        let n = size(width, height);
        let mut raw: Vec<T> = Vec::new();
        while raw.len() < n
            invariant
                call_requires(f, ()),
                raw@.len() <= n,
                forall|i: int| 0 <= i < raw@.len() ==> call_ensures(f, (), #[trigger] raw@[i]),
            decreases n - raw@.len(),
        {
            raw.push(f());
        }
        Grid { raw, dim: Vector { x: width, y: height } }
    }

    /// Constructs a grid with the given dimensions where the cell at each
    /// position holds a value computed by `f` from that position; `f` is
    /// invoked once per cell in row-major order.
    pub fn from_fn<F: Fn(Vector) -> T>(width: i64, height: i64, f: F) -> (r: Self)
        requires
            valid_dimensions(width, height),
            forall|pos: Vector|
                0 <= pos.x < width && 0 <= pos.y < height ==> call_requires(f, (pos,)),
        ensures
            r.wf(),
            r@.width == width,
            r@.height == height,
            forall|pos: Vector|
                r@.in_bounds(pos) ==> call_ensures(f, (pos,), #[trigger] r@.cell(pos)),
    {
        let mut raw: Vec<T> = Vec::new();
        let mut y: i64 = 0;
        while y < height
            invariant
                valid_dimensions(width, height),
                forall|pos: Vector|
                    0 <= pos.x < width && 0 <= pos.y < height ==> call_requires(f, (pos,)),
                0 <= y <= height,
                raw@.len() == y * width,
                forall|pos: Vector|
                    0 <= pos.x < width && 0 <= pos.y < y ==> call_ensures(
                        f,
                        (pos,),
                        #[trigger] raw@[pos.x + pos.y * width],
                    ),
            decreases height - y,
        {
            let mut x: i64 = 0;
            while x < width
                invariant
                    valid_dimensions(width, height),
                    forall|pos: Vector|
                        0 <= pos.x < width && 0 <= pos.y < height ==> call_requires(f, (pos,)),
                    0 <= y < height,
                    0 <= x <= width,
                    raw@.len() == y * width + x,
                    forall|pos: Vector|
                        (0 <= pos.x < width && 0 <= pos.y < y) || (pos.y == y && 0 <= pos.x < x)
                            ==> call_ensures(f, (pos,), #[trigger] raw@[pos.x + pos.y * width]),
                decreases width - x,
            {
                raw.push(f(Vector::new(x, y)));
                proof {
                    assert forall|pos: Vector| 0 <= pos.x < width && 0 <= pos.y < y implies pos.x
                        + pos.y * width < y * width by {
                        assert(pos.x + pos.y * width < y * width) by (nonlinear_arith)
                            requires
                                0 <= pos.x < width,
                                0 <= pos.y < y,
                        ;
                    }
                }
                x = x + 1;
            }
            proof {
                assert(y * width + width == (y + 1) * width) by (nonlinear_arith);
            }
            y = y + 1;
        }
        proof {
            assert(height * width == width * height) by (nonlinear_arith);
        }
        Grid { raw, dim: Vector { x: width, y: height } }
    }

    /// Constructs a grid with the given dimensions, filled in row-major
    /// order from the front of `values`; trailing extra values are ignored.
    pub fn from_iter(width: i64, height: i64, values: Vec<T>) -> (r: Self)
        requires
            valid_dimensions(width, height),
            values@.len() >= width * height,
        ensures
            r.wf(),
            r@.width == width,
            r@.height == height,
            r@.cells == values@.subrange(0, width * height),
    {
        let n = size(width, height);
        let mut raw = values;
        raw.truncate(n);
        Grid { raw, dim: Vector { x: width, y: height } }
    }

    /// Constructs a grid from one sequence of values per row: the width is
    /// the length of the first row, which every other row must match, and
    /// the height is the number of rows. Zero rows yield the one degenerate
    /// grid, with dimensions `(0, 0)`, which rejects every position as out
    /// of bounds.
    pub fn from_nested_iter(values: Vec<Vec<T>>) -> (r: Self)
        requires
            forall|i: int|
                0 <= i < values@.len() ==> #[trigger] values@[i]@.len() == values@[0]@.len(),
            values@.len() <= i64::MAX,
            values@.len() > 0 ==> values@[0]@.len() <= i64::MAX,
        ensures
            r.wf(),
            values@.len() == 0 ==> r@.width == 0 && r@.height == 0,
            values@.len() > 0 ==> r@.width == values@[0]@.len() && r@.height == values@.len(),
            forall|pos: Vector|
                r@.in_bounds(pos) ==> #[trigger] r@.cell(pos) == values@[pos.y as int]@[pos.x as int],
    {
        let mut rows = values;
        if rows.len() == 0 {
            return Grid { raw: Vec::new(), dim: Vector { x: 0, y: 0 } };
        }
        let ghost all = rows@;
        let mut first = rows.remove(0);
        let width = first.len() as i64;
        let mut raw: Vec<T> = Vec::new();
        raw.append(&mut first);
        let mut height: i64 = 1;
        while rows.len() > 0
            invariant
                forall|i: int| 0 <= i < all.len() ==> #[trigger] all[i]@.len() == all[0]@.len(),
                all.len() <= i64::MAX,
                width == all[0]@.len(),
                1 <= height <= all.len(),
                rows@ == all.skip(height as int),
                raw@.len() == height * width,
                forall|y: int, x: int|
                    0 <= y < height && 0 <= x < width ==> #[trigger] raw@[y * width + x]
                        == all[y]@[x],
            decreases rows@.len(),
        {
            let mut row = rows.remove(0);
            proof {
                assert(rows@ =~= all.skip(height as int + 1));
                assert(row@ == all[height as int]@);
            }
            raw.append(&mut row);
            proof {
                assert(height * width + width == (height + 1) * width) by (nonlinear_arith);
                assert forall|y: int, x: int| 0 <= y < height + 1 && 0 <= x < width implies
                    #[trigger] raw@[y * width + x] == all[y]@[x] by {
                    if y < height {
                        assert(0 <= y * width + x < height * width) by (nonlinear_arith)
                            requires
                                0 <= y < height,
                                0 <= x < width,
                        ;
                    }
                }
            }
            height = height + 1;
        }
        proof {
            assert(height * width == width * height) by (nonlinear_arith);
            assert forall|pos: Vector| 0 <= pos.x < width && 0 <= pos.y < height implies #[trigger]
                raw@[pos.x + pos.y * width] == all[pos.y as int]@[pos.x as int] by {
                assert(0 <= (pos.y as int) * width + (pos.x as int) < height * width)
                    by (nonlinear_arith)
                    requires
                        0 <= pos.x < width,
                        0 <= pos.y < height,
                ;
                assert(raw@[(pos.y as int) * width + (pos.x as int)] == all[pos.y as int]@[pos.x as int]);
            }
        }
        Grid { raw, dim: Vector { x: width, y: height } }
    }

    /// Returns the width of the grid.
    pub fn width(&self) -> (r: i64)
        ensures
            r == self@.width,
    {
        self.dim.x
    }

    /// Returns the height of the grid.
    pub fn height(&self) -> (r: i64)
        ensures
            r == self@.height,
    {
        self.dim.y
    }

    /// Returns the dimensions of the grid as a coordinate pair.
    pub fn dim(&self) -> (r: Vector)
        ensures
            r.x == self@.width,
            r.y == self@.height,
    {
        self.dim
    }

    /// Returns `true` iff the given position addresses a cell of the grid.
    pub fn in_bounds(&self, pos: Vector) -> (r: bool)
        ensures
            r == self@.in_bounds(pos),
    {
        0 <= pos.x && pos.x < self.dim.x && 0 <= pos.y && pos.y < self.dim.y
    }

    /// Translates a position into its flat row-major offset, or reports that
    /// none exists.
    fn get_index(&self, pos: Vector) -> (r: Option<usize>)
        requires
            self.wf(),
        ensures
            match r {
                Some(i) => self@.in_bounds(pos) && i == self@.index_of(pos),
                None => !self@.in_bounds(pos),
            },
    {
        if self.in_bounds(pos) {
            let n = self.raw.len();
            proof {
                lemma_offset_arith(self.dim.x as int, self.dim.y as int, pos.x as int, pos.y as int);
                assert(self@.index_of(pos) < n);
            }
            Some((pos.x as usize) + (pos.y as usize) * (self.dim.x as usize))
        } else {
            None
        }
    }

    /// Returns a reference to the cell at the given position, or `None` if
    /// the position is out of bounds.
    pub fn get(&self, pos: Vector) -> (r: Option<&T>)
        requires
            self.wf(),
        ensures
            match r {
                Some(v) => self@.in_bounds(pos) && *v == self@.cell(pos),
                None => !self@.in_bounds(pos),
            },
    {
        match self.get_index(pos) {
            Some(i) => {
                proof {
                    self@.lemma_index_of_in_range(pos);
                }
                Some(&self.raw[i])
            },
            None => None,
        }
    }

    /// Returns a mutable reference to the cell at the given position, or
    /// `None` if the position is out of bounds.
    pub fn get_mut(&mut self, pos: Vector) -> (r: Option<&mut T>)
        requires
            old(self).wf(),
        ensures
            old(self)@.in_bounds(pos) ==> (r matches Some(v) && *v == old(self)@.cell(pos)
                && final(self)@ == old(self)@.set(pos, *final(v))),
            !old(self)@.in_bounds(pos) ==> r is None && *final(self) == *old(self),
            final(self).wf(),
    {
        match self.get_index(pos) {
            Some(i) => {
                proof {
                    self@.lemma_index_of_in_range(pos);
                }
                Some(&mut self.raw[i])
            },
            None => None,
        }
    }

    /// Writes `value` at the given position and returns the value the cell
    /// held, or returns `None` and leaves every cell unchanged if the
    /// position is out of bounds.
    pub fn set(&mut self, pos: Vector, value: T) -> (r: Option<T>)
        requires
            old(self).wf(),
        ensures
            old(self)@.in_bounds(pos) ==> r == Some(old(self)@.cell(pos)) && final(self)@ == old(
                self,
            )@.set(pos, value),
            !old(self)@.in_bounds(pos) ==> r is None && *final(self) == *old(self),
            final(self).wf(),
    {
        match self.get_index(pos) {
            Some(i) => {
                proof {
                    self@.lemma_index_of_in_range(pos);
                }
                let mut v = value;
                core::mem::swap(&mut self.raw[i], &mut v);
                Some(v)
            },
            None => None,
        }
    }

    /// Maps the cells of an existing grid, in row-major order, to build a
    /// new grid with the same dimensions.
    pub fn map<U, F: Fn(&T) -> U>(&self, f: F) -> (r: Grid<U>)
        requires
            self.wf(),
            forall|i: int| 0 <= i < self@.cells.len() ==> call_requires(f, (&self@.cells[i],)),
        ensures
            r.wf(),
            r@.width == self@.width,
            r@.height == self@.height,
            forall|i: int|
                0 <= i < self@.cells.len() ==> call_ensures(
                    f,
                    (&self@.cells[i],),
                    #[trigger] r@.cells[i],
                ),
    {
        let n = self.raw.len();
        let mut out: Vec<U> = Vec::new();
        let mut j: usize = 0;
        while j < n
            invariant
                forall|i: int| 0 <= i < self@.cells.len() ==> call_requires(f, (&self@.cells[i],)),
                n == self@.cells.len(),
                0 <= j <= n,
                out@.len() == j,
                forall|i: int|
                    0 <= i < j ==> call_ensures(f, (&self@.cells[i],), #[trigger] out@[i]),
            decreases n - j,
        {
            out.push(f(&self.raw[j]));
            j = j + 1;
        }
        Grid { raw: out, dim: self.dim }
    }

    /// Maps the positions and cells of an existing grid, in row-major order,
    /// to build a new grid with the same dimensions.
    pub fn pos_map<U, F: Fn(Vector, &T) -> U>(&self, f: F) -> (r: Grid<U>)
        requires
            self.wf(),
            forall|pos: Vector|
                self@.in_bounds(pos) ==> call_requires(f, (pos, &self@.cell(pos))),
        ensures
            r.wf(),
            r@.width == self@.width,
            r@.height == self@.height,
            forall|pos: Vector|
                self@.in_bounds(pos) ==> call_ensures(
                    f,
                    (pos, &self@.cell(pos)),
                    #[trigger] r@.cell(pos),
                ),
    {
        let width = self.dim.x;
        let height = self.dim.y;
        let mut out: Vec<U> = Vec::new();
        let mut y: i64 = 0;
        while y < height
            invariant
                self.wf(),
                forall|pos: Vector|
                    self@.in_bounds(pos) ==> call_requires(f, (pos, &self@.cell(pos))),
                width == self@.width,
                height == self@.height,
                0 <= y <= height,
                out@.len() == y * width,
                forall|pos: Vector|
                    0 <= pos.x < width && 0 <= pos.y < y ==> call_ensures(
                        f,
                        (pos, &self@.cell(pos)),
                        #[trigger] out@[pos.x + pos.y * width],
                    ),
            decreases height - y,
        {
            let mut x: i64 = 0;
            while x < width
                invariant
                    self.wf(),
                    forall|pos: Vector|
                        self@.in_bounds(pos) ==> call_requires(f, (pos, &self@.cell(pos))),
                    width == self@.width,
                    height == self@.height,
                    0 <= y < height,
                    0 <= x <= width,
                    out@.len() == y * width + x,
                    forall|pos: Vector|
                        (0 <= pos.x < width && 0 <= pos.y < y) || (pos.y == y && 0 <= pos.x < x)
                            ==> call_ensures(
                            f,
                            (pos, &self@.cell(pos)),
                            #[trigger] out@[pos.x + pos.y * width],
                        ),
                decreases width - x,
            {
                let pos = Vector::new(x, y);
                let v = self.index(pos);
                proof {
                    assert(self@.in_bounds(pos));
                    assert(call_requires(f, (pos, v)));
                }
                out.push(f(pos, v));
                proof {
                    assert forall|pos: Vector| 0 <= pos.x < width && 0 <= pos.y < y implies pos.x
                        + pos.y * width < y * width by {
                        assert(pos.x + pos.y * width < y * width) by (nonlinear_arith)
                            requires
                                0 <= pos.x < width,
                                0 <= pos.y < y,
                        ;
                    }
                }
                x = x + 1;
            }
            proof {
                assert(y * width + width == (y + 1) * width) by (nonlinear_arith);
            }
            y = y + 1;
        }
        proof {
            assert(height * width == width * height) by (nonlinear_arith);
            assert forall|pos: Vector| self@.in_bounds(pos) implies call_ensures(
                f,
                (pos, &self@.cell(pos)),
                #[trigger] out@[self@.index_of(pos)],
            ) by {
                assert(out@[pos.x + pos.y * width] == out@[self@.index_of(pos)]);
            }
        }
        Grid { raw: out, dim: self.dim }
    }

    /// Maps the cells of a grid, in row-major order, into a new grid with
    /// the same dimensions, consuming the source.
    pub fn map_into<U, F: Fn(T) -> U>(self, f: F) -> (r: Grid<U>)
        requires
            self.wf(),
            forall|i: int| 0 <= i < self@.cells.len() ==> call_requires(f, (self@.cells[i],)),
        ensures
            r.wf(),
            r@.width == self@.width,
            r@.height == self@.height,
            forall|i: int|
                0 <= i < self@.cells.len() ==> call_ensures(
                    f,
                    (self@.cells[i],),
                    #[trigger] r@.cells[i],
                ),
    {
        let ghost orig = self@;
        let Grid { mut raw, dim } = self;
        let mut out: Vec<U> = Vec::new();
        while raw.len() > 0
            invariant
                forall|i: int| 0 <= i < orig.cells.len() ==> call_requires(f, (orig.cells[i],)),
                out@.len() + raw@.len() == orig.cells.len(),
                raw@ == orig.cells.skip(out@.len() as int),
                forall|i: int|
                    0 <= i < out@.len() ==> call_ensures(f, (orig.cells[i],), #[trigger] out@[i]),
            decreases raw@.len(),
        {
            let v = raw.remove(0);
            proof {
                assert(raw@ =~= orig.cells.skip(out@.len() + 1int));
                assert(v == orig.cells[out@.len() as int]);
            }
            out.push(f(v));
        }
        Grid { raw: out, dim }
    }

    /// Maps the positions and cells of a grid, in row-major order, into a
    /// new grid with the same dimensions, consuming the source.
    pub fn pos_map_into<U, F: Fn(Vector, T) -> U>(self, f: F) -> (r: Grid<U>)
        requires
            self.wf(),
            forall|pos: Vector| self@.in_bounds(pos) ==> call_requires(f, (pos, self@.cell(pos))),
        ensures
            r.wf(),
            r@.width == self@.width,
            r@.height == self@.height,
            forall|pos: Vector|
                self@.in_bounds(pos) ==> call_ensures(
                    f,
                    (pos, self@.cell(pos)),
                    #[trigger] r@.cell(pos),
                ),
    {
        let ghost orig = self@;
        let Grid { mut raw, dim } = self;
        let width = dim.x;
        let height = dim.y;
        let mut out: Vec<U> = Vec::new();
        let mut y: i64 = 0;
        while y < height
            invariant
                forall|pos: Vector|
                    orig.in_bounds(pos) ==> call_requires(f, (pos, orig.cell(pos))),
                orig.wf(),
                width == orig.width,
                height == orig.height,
                0 <= y <= height,
                out@.len() == y * width,
                out@.len() + raw@.len() == orig.cells.len(),
                raw@ == orig.cells.skip(out@.len() as int),
                forall|pos: Vector|
                    0 <= pos.x < width && 0 <= pos.y < y ==> call_ensures(
                        f,
                        (pos, orig.cell(pos)),
                        #[trigger] out@[pos.x + pos.y * width],
                    ),
            decreases height - y,
        {
            let mut x: i64 = 0;
            while x < width
                invariant
                    forall|pos: Vector|
                        orig.in_bounds(pos) ==> call_requires(f, (pos, orig.cell(pos))),
                    orig.wf(),
                    width == orig.width,
                    height == orig.height,
                    0 <= y < height,
                    0 <= x <= width,
                    out@.len() == y * width + x,
                    out@.len() + raw@.len() == orig.cells.len(),
                    raw@ == orig.cells.skip(out@.len() as int),
                    forall|pos: Vector|
                        (0 <= pos.x < width && 0 <= pos.y < y) || (pos.y == y && 0 <= pos.x < x)
                            ==> call_ensures(
                            f,
                            (pos, orig.cell(pos)),
                            #[trigger] out@[pos.x + pos.y * width],
                        ),
                decreases width - x,
            {
                let pos = Vector::new(x, y);
                proof {
                    lemma_offset_arith(width as int, height as int, x as int, y as int);
                }
                let v = raw.remove(0);
                proof {
                    assert(raw@ =~= orig.cells.skip(out@.len() + 1int));
                    assert(v == orig.cells[out@.len() as int]);
                    assert(v == orig.cell(pos));
                    assert(orig.in_bounds(pos));
                    assert(call_requires(f, (pos, v)));
                }
                out.push(f(pos, v));
                proof {
                    assert forall|pos: Vector| 0 <= pos.x < width && 0 <= pos.y < y implies pos.x
                        + pos.y * width < y * width by {
                        assert(pos.x + pos.y * width < y * width) by (nonlinear_arith)
                            requires
                                0 <= pos.x < width,
                                0 <= pos.y < y,
                        ;
                    }
                }
                x = x + 1;
            }
            proof {
                assert(y * width + width == (y + 1) * width) by (nonlinear_arith);
            }
            y = y + 1;
        }
        proof {
            assert(height * width == width * height) by (nonlinear_arith);
            assert forall|pos: Vector| orig.in_bounds(pos) implies call_ensures(
                f,
                (pos, orig.cell(pos)),
                #[trigger] out@[orig.index_of(pos)],
            ) by {
                assert(out@[pos.x + pos.y * width] == out@[orig.index_of(pos)]);
            }
        }
        Grid { raw: out, dim }
    }

    /// Returns every position of the grid, in row-major order: all of row 0
    /// from column 0 upward, then all of row 1, and so on.
    pub fn positions(&self) -> (r: Vec<Vector>)
        requires
            self.wf(),
        ensures
            r@.len() == self@.cells.len(),
            forall|i: int| 0 <= i < r@.len() ==> #[trigger] r@[i] == self@.pos_at(i),
    {
        let width = self.dim.x;
        let height = self.dim.y;
        let mut out: Vec<Vector> = Vec::new();
        let mut y: i64 = 0;
        while y < height
            invariant
                self.wf(),
                width == self@.width,
                height == self@.height,
                0 <= y <= height,
                out@.len() == y * width,
                forall|i: int| 0 <= i < out@.len() ==> #[trigger] out@[i] == self@.pos_at(i),
            decreases height - y,
        {
            let mut x: i64 = 0;
            while x < width
                invariant
                    self.wf(),
                    width == self@.width,
                    height == self@.height,
                    0 <= y < height,
                    0 <= x <= width,
                    out@.len() == y * width + x,
                    forall|i: int| 0 <= i < out@.len() ==> #[trigger] out@[i] == self@.pos_at(i),
                decreases width - x,
            {
                out.push(Vector::new(x, y));
                proof {
                    let i = y * width + x;
                    vstd::arithmetic::div_mod::lemma_fundamental_div_mod_converse(
                        i as int,
                        width as int,
                        y as int,
                        x as int,
                    );
                    assert(out@[i as int] == self@.pos_at(i as int));
                }
                x = x + 1;
            }
            proof {
                assert(y * width + width == (y + 1) * width) by (nonlinear_arith);
            }
            y = y + 1;
        }
        proof {
            assert(height * width == width * height) by (nonlinear_arith);
        }
        out
    }

    /// Returns references to every cell, in row-major order.
    pub fn values(&self) -> (r: Vec<&T>)
        ensures
            r@.len() == self@.cells.len(),
            forall|i: int| 0 <= i < r@.len() ==> *(#[trigger] r@[i]) == self@.cells[i],
    {
        let n = self.raw.len();
        let mut out: Vec<&T> = Vec::new();
        let mut j: usize = 0;
        while j < n
            invariant
                n == self@.cells.len(),
                0 <= j <= n,
                out@.len() == j,
                forall|i: int| 0 <= i < j ==> *(#[trigger] out@[i]) == self@.cells[i],
            decreases n - j,
        {
            out.push(&self.raw[j]);
            j = j + 1;
        }
        out
    }

    /// Returns every position of the grid paired with a reference to its
    /// cell, in row-major order; the position paired with a cell is exactly
    /// the one the position-generator constructor computed that cell from.
    pub fn position_values(&self) -> (r: Vec<(Vector, &T)>)
        requires
            self.wf(),
        ensures
            r@.len() == self@.cells.len(),
            forall|i: int| 0 <= i < r@.len() ==> (#[trigger] r@[i]).0 == self@.pos_at(i),
            forall|i: int| 0 <= i < r@.len() ==> *(#[trigger] r@[i]).1 == self@.cells[i],
    {
        let width = self.dim.x;
        let height = self.dim.y;
        let mut out: Vec<(Vector, &T)> = Vec::new();
        let mut y: i64 = 0;
        while y < height
            invariant
                self.wf(),
                width == self@.width,
                height == self@.height,
                0 <= y <= height,
                out@.len() == y * width,
                forall|i: int| 0 <= i < out@.len() ==> (#[trigger] out@[i]).0 == self@.pos_at(i),
                forall|i: int| 0 <= i < out@.len() ==> *(#[trigger] out@[i]).1 == self@.cells[i],
            decreases height - y,
        {
            let mut x: i64 = 0;
            while x < width
                invariant
                    self.wf(),
                    width == self@.width,
                    height == self@.height,
                    0 <= y < height,
                    0 <= x <= width,
                    out@.len() == y * width + x,
                    forall|i: int|
                        0 <= i < out@.len() ==> (#[trigger] out@[i]).0 == self@.pos_at(i),
                    forall|i: int|
                        0 <= i < out@.len() ==> *(#[trigger] out@[i]).1 == self@.cells[i],
                decreases width - x,
            {
                let pos = Vector::new(x, y);
                let v = self.index(pos);
                out.push((pos, v));
                proof {
                    let i = y * width + x;
                    vstd::arithmetic::div_mod::lemma_fundamental_div_mod_converse(
                        i as int,
                        width as int,
                        y as int,
                        x as int,
                    );
                    assert(out@[i as int].0 == self@.pos_at(i as int));
                    assert(*out@[i as int].1 == self@.cells[i as int]);
                }
                x = x + 1;
            }
            proof {
                assert(y * width + width == (y + 1) * width) by (nonlinear_arith);
            }
            y = y + 1;
        }
        proof {
            assert(height * width == width * height) by (nonlinear_arith);
        }
        out
    }

    /// Consumes the grid and returns its cells, each exactly once, in
    /// row-major order.
    pub fn into_values(self) -> (r: Vec<T>)
        ensures
            r@ == self@.cells,
    {
        let Grid { raw, dim } = self;
        raw
    }

    /// Consumes the grid and returns every position paired with the cell it
    /// addressed, each exactly once, in row-major order.
    pub fn into_position_values(self) -> (r: Vec<(Vector, T)>)
        requires
            self.wf(),
        ensures
            r@.len() == self@.cells.len(),
            forall|i: int| 0 <= i < r@.len() ==> (#[trigger] r@[i]).0 == self@.pos_at(i),
            forall|i: int| 0 <= i < r@.len() ==> (#[trigger] r@[i]).1 == self@.cells[i],
    {
        let ghost orig = self@;
        let Grid { mut raw, dim } = self;
        let width = dim.x;
        let height = dim.y;
        let mut out: Vec<(Vector, T)> = Vec::new();
        let mut y: i64 = 0;
        while y < height
            invariant
                orig.wf(),
                width == orig.width,
                height == orig.height,
                0 <= y <= height,
                out@.len() == y * width,
                out@.len() + raw@.len() == orig.cells.len(),
                raw@ == orig.cells.skip(out@.len() as int),
                forall|i: int| 0 <= i < out@.len() ==> (#[trigger] out@[i]).0 == orig.pos_at(i),
                forall|i: int| 0 <= i < out@.len() ==> (#[trigger] out@[i]).1 == orig.cells[i],
            decreases height - y,
        {
            let mut x: i64 = 0;
            while x < width
                invariant
                    orig.wf(),
                    width == orig.width,
                    height == orig.height,
                    0 <= y < height,
                    0 <= x <= width,
                    out@.len() == y * width + x,
                    out@.len() + raw@.len() == orig.cells.len(),
                    raw@ == orig.cells.skip(out@.len() as int),
                    forall|i: int| 0 <= i < out@.len() ==> (#[trigger] out@[i]).0 == orig.pos_at(i),
                    forall|i: int| 0 <= i < out@.len() ==> (#[trigger] out@[i]).1 == orig.cells[i],
                decreases width - x,
            {
                let pos = Vector::new(x, y);
                proof {
                    lemma_offset_arith(width as int, height as int, x as int, y as int);
                }
                let v = raw.remove(0);
                proof {
                    assert(raw@ =~= orig.cells.skip(out@.len() + 1int));
                    assert(v == orig.cells[out@.len() as int]);
                }
                out.push((pos, v));
                proof {
                    let i = y * width + x;
                    vstd::arithmetic::div_mod::lemma_fundamental_div_mod_converse(
                        i as int,
                        width as int,
                        y as int,
                        x as int,
                    );
                    assert(out@[i as int].0 == orig.pos_at(i as int));
                    assert(out@[i as int].1 == orig.cells[i as int]);
                }
                x = x + 1;
            }
            proof {
                assert(y * width + width == (y + 1) * width) by (nonlinear_arith);
            }
            y = y + 1;
        }
        proof {
            assert(height * width == width * height) by (nonlinear_arith);
            assert(raw@.len() == 0);
        }
        out
    }

    /// Unchecked read access: returns a reference to the cell at a position
    /// the caller has already guaranteed to be in bounds.
    pub fn index(&self, pos: Vector) -> (r: &T)
        requires
            self.wf(),
            self@.in_bounds(pos),
        ensures
            *r == self@.cell(pos),
    {
        let n = self.raw.len();
        proof {
            lemma_offset_arith(self.dim.x as int, self.dim.y as int, pos.x as int, pos.y as int);
            assert(self@.index_of(pos) < n);
        }
        let i = (pos.x as usize) + (pos.y as usize) * (self.dim.x as usize);
        &self.raw[i]
    }

    /// Unchecked write access: returns a mutable reference to the cell at a
    /// position the caller has already guaranteed to be in bounds.
    pub fn index_mut(&mut self, pos: Vector) -> (r: &mut T)
        requires
            old(self).wf(),
            old(self)@.in_bounds(pos),
        ensures
            *r == old(self)@.cell(pos),
            final(self)@ == old(self)@.set(pos, *final(r)),
            final(self).wf(),
    {
        let n = self.raw.len();
        proof {
            lemma_offset_arith(self.dim.x as int, self.dim.y as int, pos.x as int, pos.y as int);
            assert(self@.index_of(pos) < n);
        }
        let i = (pos.x as usize) + (pos.y as usize) * (self.dim.x as usize);
        &mut self.raw[i]
    }
}

} // verus!
