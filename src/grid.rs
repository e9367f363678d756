use vstd::prelude::*;

verus! {

/// A three-axis array of `i32` held in an `ndarray::Array3`.
///
/// Verus cannot read ndarray's own array type, so it is kept in this private field
/// and every use of it goes through the methods below.
#[verifier::external_body]
pub struct StoichArray {
    cells: ndarray::Array3<i32>,
}

/// The entries of the array, indexed as `[axis 0][axis 1][axis 2]`.
pub uninterp spec fn stoich_cells(a: StoichArray) -> Seq<Seq<Seq<i32>>>;

/// The lengths of the three axes.
pub uninterp spec fn stoich_shape(a: StoichArray) -> (nat, nat, nat);

/// `cells` is a rectangular block whose axis lengths are `shape`.
pub open spec fn is_shaped(cells: Seq<Seq<Seq<i32>>>, shape: (nat, nat, nat)) -> bool {
    &&& cells.len() == shape.0
    &&& forall|i: int| 0 <= i < cells.len() ==> #[trigger] cells[i].len() == shape.1
    &&& forall|i: int, j: int|
        0 <= i < cells.len() && 0 <= j < cells[i].len() ==> #[trigger] cells[i][j].len() == shape.2
}

/// An axis length as ndarray counts it when it checks the size of a shape:
/// empty axes do not take part in the product.
pub open spec fn nonzero_len(n: nat) -> nat {
    if n == 0 {
        1
    } else {
        n
    }
}

/// The shape `(d0, d1, d2)` can be allocated without a panic: ndarray's size check and the
/// byte size of the buffer, four bytes per entry, both stay within `isize::MAX`.
pub open spec fn shape_fits(d0: nat, d1: nat, d2: nat) -> bool {
    nonzero_len(d0) * nonzero_len(d1) * nonzero_len(d2) * 4 <= isize::MAX
}

pub open spec fn zero_block(d0: nat, d1: nat, d2: nat) -> Seq<Seq<Seq<i32>>> {
    Seq::new(d0, |i: int| Seq::new(d1, |j: int| Seq::new(d2, |k: int| 0i32)))
}

impl StoichArray {
    /// Relies on `ndarray::Array3::zeros`: an array of the given shape filled with
    /// zeros. It panics when the product of the non-zero axis lengths exceeds `isize::MAX`,
    /// and its `vec!` buffer when the byte size does.
    #[verifier::external_body]
    pub(crate) fn zeros(d0: usize, d1: usize, d2: usize) -> (r: StoichArray)
        requires
            shape_fits(d0 as nat, d1 as nat, d2 as nat),
        ensures
            stoich_shape(r) == (d0 as nat, d1 as nat, d2 as nat),
            stoich_cells(r) == zero_block(d0 as nat, d1 as nat, d2 as nat),
    {
        StoichArray { cells: ndarray::Array3::zeros((d0, d1, d2)) }
    }

    /// Relies on ndarray's `Index<(usize, usize, usize)>`: the entry at that position,
    /// panicking when a coordinate is out of bounds.
    #[verifier::external_body]
    pub(crate) fn get(&self, i: usize, j: usize, k: usize) -> (r: i32)
        requires
            i < stoich_shape(*self).0,
            j < stoich_shape(*self).1,
            k < stoich_shape(*self).2,
        ensures
            r == stoich_cells(*self)[i as int][j as int][k as int],
    {
        self.cells[(i, j, k)]
    }

    /// Relies on ndarray's `IndexMut<(usize, usize, usize)>`: writes one entry and
    /// leaves the shape and every other entry as they were.
    #[verifier::external_body]
    pub(crate) fn set(&mut self, i: usize, j: usize, k: usize, x: i32)
        requires
            i < stoich_shape(*old(self)).0,
            j < stoich_shape(*old(self)).1,
            k < stoich_shape(*old(self)).2,
        ensures
            stoich_shape(*final(self)) == stoich_shape(*old(self)),
            stoich_cells(*final(self)) == stoich_cells(*old(self)).update(
                i as int,
                stoich_cells(*old(self))[i as int].update(
                    j as int,
                    stoich_cells(*old(self))[i as int][j as int].update(k as int, x),
                ),
            ),
    {
        self.cells[(i, j, k)] = x;
    }

    /// Relies on `ndarray::ArrayBase::dim`: the three axis lengths.
    #[verifier::external_body]
    pub(crate) fn dim(&self) -> (r: (usize, usize, usize))
        ensures
            (r.0 as nat, r.1 as nat, r.2 as nat) == stoich_shape(*self),
    {
        self.cells.dim()
    }
}

} // verus!
