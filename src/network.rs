use vstd::prelude::*;

use crate::grid::{is_shaped, shape_fits, stoich_cells, stoich_shape, zero_block, StoichArray};

verus! {

/// Why a reaction network could not be built from the rows it was given.
#[derive(Debug, Clone, Copy, PartialEq, Eq, Structural)]
pub enum ShapeError {
    /// A transition does not consist of exactly an input row and an output row.
    MissingRows,
    /// A row's length differs from the number of species.
    Jagged,
    /// The grid is too large to be allocated.
    TooLarge,
}

/// Which of a transition's two rows: the consumed or the produced coefficients.
#[derive(Debug, Clone, Copy, PartialEq, Eq, Structural)]
pub enum IO {
    Input,
    Output,
}

impl IO {
    pub open spec fn idx(self) -> int {
        match self {
            IO::Input => 0,
            IO::Output => 1,
        }
    }

    /// The position of this row along the grid's middle axis.
    pub fn to_idx(self) -> (r: usize)
        ensures
            r == self.idx(),
    {
        match self {
            IO::Input => 0,
            IO::Output => 1,
        }
    }
}

/// The nested rows `[transition][input or output][species]` as mathematical sequences.
pub open spec fn nested_view(v: Seq<Vec<Vec<i32>>>) -> Seq<Seq<Seq<i32>>> {
    Seq::new(v.len(), |i: int| Seq::new(v[i]@.len(), |j: int| v[i]@[j]@))
}

/// Every transition has exactly an input row and an output row.
pub open spec fn has_two_rows(rows: Seq<Seq<Seq<i32>>>) -> bool {
    forall|i: int| 0 <= i < rows.len() ==> #[trigger] rows[i].len() == 2
}

/// Every row has one coefficient per species.
pub open spec fn rows_match(rows: Seq<Seq<Seq<i32>>>, n_species: nat) -> bool {
    forall|i: int, j: int|
        0 <= i < rows.len() && 0 <= j < rows[i].len() ==> #[trigger] rows[i][j].len() == n_species
}

/// The outcome of building a network with `n_species` species from `rows`.
pub open spec fn build_outcome(rows: Seq<Seq<Seq<i32>>>, n_species: nat) -> Result<(), ShapeError> {
    if !has_two_rows(rows) {
        Err(ShapeError::MissingRows)
    } else if !rows_match(rows, n_species) {
        Err(ShapeError::Jagged)
    } else if !shape_fits(rows.len(), 2, n_species) {
        Err(ShapeError::TooLarge)
    } else {
        Ok(())
    }
}

/// The stoichiometry of a reaction network: for each transition an input row of consumed
/// coefficients and an output row of produced coefficients, one per species.
pub struct PetriData {
    grid: StoichArray,
}

impl PetriData {
    #[verifier::type_invariant]
    spec fn well_formed(&self) -> bool {
        &&& stoich_shape(self.grid).1 == 2
        &&& is_shaped(stoich_cells(self.grid), stoich_shape(self.grid))
    }

    /// The grid `[transition][0 = input, 1 = output][species]`.
    pub closed spec fn stoich(&self) -> Seq<Seq<Seq<i32>>> {
        stoich_cells(self.grid)
    }

    pub closed spec fn species_count(&self) -> nat {
        stoich_shape(self.grid).2
    }

    pub open spec fn transition_count(&self) -> nat {
        self.stoich().len()
    }

    /// How many copies of species `s` transition `t` consumes.
    pub open spec fn input(&self, t: int, s: int) -> i32 {
        self.stoich()[t][0][s]
    }

    /// How many copies of species `s` transition `t` produces.
    pub open spec fn output(&self, t: int, s: int) -> i32 {
        self.stoich()[t][1][s]
    }

    /// Builds the network from `rows[t][0]` (inputs) and `rows[t][1]` (outputs), each row
    /// holding one coefficient per species.
    pub fn from_rows(n_species: usize, rows: &Vec<Vec<Vec<i32>>>) -> (r: Result<PetriData, ShapeError>)
        ensures
            match r {
                Ok(d) => build_outcome(nested_view(rows@), n_species as nat) == Ok::<(), ShapeError>(())
                    && d.stoich() == nested_view(rows@) && d.species_count() == n_species,
                Err(e) => build_outcome(nested_view(rows@), n_species as nat) == Err::<(), ShapeError>(e),
            },
    {
        let ghost view = nested_view(rows@);
        let n_transitions = rows.len();
        let mut i: usize = 0;
        while i < n_transitions
            invariant
                n_transitions == rows@.len(),
                view == nested_view(rows@),
                i <= n_transitions,
                forall|a: int| 0 <= a < i ==> #[trigger] view[a].len() == 2,
            decreases n_transitions - i,
        {
            if rows[i].len() != 2 {
                assert(view[i as int].len() != 2);
                return Err(ShapeError::MissingRows);
            }
            i = i + 1;
        }
        i = 0;
        while i < n_transitions
            invariant
                n_transitions == rows@.len(),
                view == nested_view(rows@),
                has_two_rows(view),
                i <= n_transitions,
                forall|a: int, b: int|
                    0 <= a < i && 0 <= b < view[a].len() ==> #[trigger] view[a][b].len() == n_species,
            decreases n_transitions - i,
        {
            assert(view[i as int].len() == 2);
            if rows[i][0].len() != n_species || rows[i][1].len() != n_species {
                assert(view[i as int][0].len() != n_species || view[i as int][1].len() != n_species);
                return Err(ShapeError::Jagged);
            }
            i = i + 1;
        }
        if !fits(n_transitions, n_species) {
            return Err(ShapeError::TooLarge);
        }
        let mut grid = StoichArray::zeros(n_transitions, 2, n_species);
        i = 0;
        while i < n_transitions
            invariant
                n_transitions == rows@.len(),
                view == nested_view(rows@),
                has_two_rows(view),
                rows_match(view, n_species as nat),
                i <= n_transitions,
                stoich_shape(grid) == (n_transitions as nat, 2nat, n_species as nat),
                stoich_cells(grid) == view.subrange(0, i as int) + zero_block(
                    n_transitions as nat,
                    2,
                    n_species as nat,
                ).subrange(i as int, n_transitions as int),
            decreases n_transitions - i,
        {
            assert(view[i as int].len() == 2);
            assert(view[i as int][0].len() == n_species && view[i as int][1].len() == n_species);
            let ghost before = stoich_cells(grid);
            assert(before[i as int] == zero_block(n_transitions as nat, 2, n_species as nat)[i as int]);
            fill_row(&mut grid, i, 0, &rows[i][0]);
            fill_row(&mut grid, i, 1, &rows[i][1]);
            assert(stoich_cells(grid)[i as int] =~= view[i as int]);
            assert(stoich_cells(grid) =~= view.subrange(0, i + 1) + zero_block(
                n_transitions as nat,
                2,
                n_species as nat,
            ).subrange(i + 1, n_transitions as int));
            i = i + 1;
        }
        assert(stoich_cells(grid) =~= view);
        Ok(PetriData { grid })
    }

    /// One row of the grid: the inputs (`d == 0`) or the outputs (`d == 1`) of transition `t`.
    pub fn row_of(&self, t: usize, d: usize) -> (r: Vec<i32>)
        requires
            t < self.transition_count(),
            d < 2,
        ensures
            r@ == self.stoich()[t as int][d as int],
    {
        proof {
            use_type_invariant(self);
        }
        let n = self.grid.dim().2;
        let mut row: Vec<i32> = Vec::new();
        let mut s: usize = 0;
        while s < n
            invariant
                n == self.species_count(),
                stoich_shape(self.grid).0 == self.transition_count(),
                stoich_shape(self.grid).1 == 2,
                t < self.transition_count(),
                d < 2,
                self.stoich()[t as int][d as int].len() == n,
                s <= n,
                row@ == self.stoich()[t as int][d as int].subrange(0, s as int),
            decreases n - s,
        {
            row.push(self.grid.get(t, d, s));
            assert(row@ =~= self.stoich()[t as int][d as int].subrange(0, s + 1));
            s = s + 1;
        }
        assert(row@ =~= self.stoich()[t as int][d as int]);
        row
    }

    /// The whole grid as nested rows `[transition][input, output][species]`.
    pub fn data(&self) -> (r: Vec<Vec<Vec<i32>>>)
        ensures
            nested_view(r@) == self.stoich(),
    {
        proof {
            use_type_invariant(self);
        }
        let m = self.grid.dim().0;
        let mut rows: Vec<Vec<Vec<i32>>> = Vec::new();
        let mut t: usize = 0;
        while t < m
            invariant
                m == self.transition_count(),
                has_two_rows(self.stoich()),
                t <= m,
                nested_view(rows@) == self.stoich().subrange(0, t as int),
            decreases m - t,
        {
            let mut pair: Vec<Vec<i32>> = Vec::new();
            pair.push(self.row_of(t, 0));
            pair.push(self.row_of(t, 1));
            let ghost before = rows@;
            assert(nested_view(before).len() == t);
            rows.push(pair);
            assert(rows@ == before.push(pair));
            assert(self.stoich()[t as int].len() == 2);
            assert(nested_view(rows@)[t as int] =~= self.stoich()[t as int]);
            assert forall|i: int| 0 <= i < t implies nested_view(rows@)[i] == nested_view(before)[i] by {
                assert(rows@[i] == before[i]);
            }
            assert(nested_view(rows@) =~= self.stoich().subrange(0, t + 1));
            t = t + 1;
        }
        assert(nested_view(rows@) =~= self.stoich());
        rows
    }

    /// The number of species.
    pub fn num_species(&self) -> (r: usize)
        ensures
            r == self.species_count(),
    {
        self.grid.dim().2
    }

    /// The number of transitions.
    pub fn num_transitions(&self) -> (r: usize)
        ensures
            r == self.transition_count(),
    {
        proof {
            use_type_invariant(self);
        }
        self.grid.dim().0
    }

    /// How many copies of species `s` transition `t` consumes.
    pub fn input_coeff(&self, t: usize, s: usize) -> (r: i32)
        requires
            t < self.transition_count(),
            s < self.species_count(),
        ensures
            r == self.input(t as int, s as int),
    {
        proof {
            use_type_invariant(self);
        }
        self.grid.get(t, 0, s)
    }

    /// How many copies of species `s` transition `t` produces.
    pub fn output_coeff(&self, t: usize, s: usize) -> (r: i32)
        requires
            t < self.transition_count(),
            s < self.species_count(),
        ensures
            r == self.output(t as int, s as int),
    {
        proof {
            use_type_invariant(self);
        }
        self.grid.get(t, 1, s)
    }
}

/// The number of species of nested rows: the length of the first transition's first row,
/// or zero where there is none.
pub open spec fn nested_species(rows: Seq<Seq<Seq<i32>>>) -> nat {
    if rows.len() == 0 || rows[0].len() == 0 {
        0
    } else {
        rows[0][0].len()
    }
}

/// Builds the network from `v[t][0]` (inputs) and `v[t][1]` (outputs); the number of
/// species is the length of the first row. Rows of any other length, or a transition
/// without exactly two rows, are rejected.
pub fn petri_data_from_nested_vec(v: Vec<Vec<Vec<i32>>>) -> (r: Result<PetriData, ShapeError>)
    ensures
        match r {
            Ok(d) => build_outcome(nested_view(v@), nested_species(nested_view(v@)))
                == Ok::<(), ShapeError>(()) && d.stoich() == nested_view(v@) && d.species_count()
                == nested_species(nested_view(v@)),
            Err(e) => build_outcome(nested_view(v@), nested_species(nested_view(v@))) == Err::<
                (),
                ShapeError,
            >(e),
        },
{
    let n_species = if v.len() == 0 || v[0].len() == 0 {
        0
    } else {
        v[0][0].len()
    };
    PetriData::from_rows(n_species, &v)
}

/// One transition as an editor holds it: a display name, the consumed coefficients and the
/// produced coefficients, one per species.
pub struct Transition {
    pub name: String,
    pub input: Vec<i32>,
    pub output: Vec<i32>,
}

impl Transition {
    /// The input or the output row.
    pub fn row(&self, d: IO) -> (r: &Vec<i32>)
        ensures
            r@ == (match d {
                IO::Input => self.input@,
                IO::Output => self.output@,
            }),
    {
        match d {
            IO::Input => &self.input,
            IO::Output => &self.output,
        }
    }
}

/// The rows `[transition][input, output][species]` of a list of transitions.
pub open spec fn transition_rows(ts: Seq<Transition>) -> Seq<Seq<Seq<i32>>> {
    Seq::new(ts.len(), |i: int| seq![ts[i].input@, ts[i].output@])
}

/// A reaction network as an editor holds it: names, one row pair per transition and one
/// name per species. Names are for display only.
pub struct PetriNet {
    pub name: String,
    pub transitions: Vec<Transition>,
    pub species: Vec<String>,
}

impl PetriNet {
    /// A network with no name, no transitions and no species.
    pub fn empty() -> (r: PetriNet)
        ensures
            r.name@.len() == 0,
            r.transitions@.len() == 0,
            r.species@.len() == 0,
    {
        PetriNet { name: String::new(), transitions: Vec::new(), species: Vec::new() }
    }

    /// The stoichiometry grid of this network, with one column per species. A transition
    /// whose rows do not have one entry per species is rejected.
    pub fn get_petri_data(&self) -> (r: Result<PetriData, ShapeError>)
        ensures
            match r {
                Ok(d) => build_outcome(transition_rows(self.transitions@), self.species@.len())
                    == Ok::<(), ShapeError>(()) && d.stoich() == transition_rows(self.transitions@)
                    && d.species_count() == self.species@.len(),
                Err(e) => build_outcome(transition_rows(self.transitions@), self.species@.len())
                    == Err::<(), ShapeError>(e),
            },
    {
        let ghost view = transition_rows(self.transitions@);
        let n_transitions = self.transitions.len();
        let n_species = self.species.len();
        assert(has_two_rows(view));
        let mut i: usize = 0;
        while i < n_transitions
            invariant
                n_transitions == self.transitions@.len(),
                n_species == self.species@.len(),
                view == transition_rows(self.transitions@),
                i <= n_transitions,
                forall|a: int, b: int|
                    0 <= a < i && 0 <= b < view[a].len() ==> #[trigger] view[a][b].len() == n_species,
            decreases n_transitions - i,
        {
            let tr = &self.transitions[i];
            assert(view[i as int][0] == tr.input@ && view[i as int][1] == tr.output@);
            if tr.input.len() != n_species || tr.output.len() != n_species {
                return Err(ShapeError::Jagged);
            }
            i = i + 1;
        }
        if !fits(n_transitions, n_species) {
            return Err(ShapeError::TooLarge);
        }
        let mut grid = StoichArray::zeros(n_transitions, 2, n_species);
        i = 0;
        while i < n_transitions
            invariant
                n_transitions == self.transitions@.len(),
                view == transition_rows(self.transitions@),
                has_two_rows(view),
                rows_match(view, n_species as nat),
                i <= n_transitions,
                stoich_shape(grid) == (n_transitions as nat, 2nat, n_species as nat),
                stoich_cells(grid) == view.subrange(0, i as int) + zero_block(
                    n_transitions as nat,
                    2,
                    n_species as nat,
                ).subrange(i as int, n_transitions as int),
            decreases n_transitions - i,
        {
            let tr = &self.transitions[i];
            assert(view[i as int].len() == 2);
            assert(view[i as int][0] == tr.input@ && view[i as int][1] == tr.output@);
            let ghost before = stoich_cells(grid);
            assert(before[i as int] == zero_block(n_transitions as nat, 2, n_species as nat)[i as int]);
            fill_row(&mut grid, i, 0, &tr.input);
            fill_row(&mut grid, i, 1, &tr.output);
            assert(stoich_cells(grid)[i as int] =~= view[i as int]);
            assert(stoich_cells(grid) =~= view.subrange(0, i + 1) + zero_block(
                n_transitions as nat,
                2,
                n_species as nat,
            ).subrange(i + 1, n_transitions as int));
            i = i + 1;
        }
        assert(stoich_cells(grid) =~= view);
        Ok(PetriData { grid })
    }
}

/// Tells, without overflow, whether a grid of `n_transitions` by two rows by `n_species`
/// can be allocated.
fn fits(n_transitions: usize, n_species: usize) -> (r: bool)
    ensures
        r == shape_fits(n_transitions as nat, 2, n_species as nat),
{
    let a: usize = if n_transitions == 0 { 1 } else { n_transitions };
    let c: usize = if n_species == 0 { 1 } else { n_species };
    assert(shape_fits(n_transitions as nat, 2, n_species as nat) == (a * 2 * c * 4 <= isize::MAX));
    match a.checked_mul(8) {
        None => {
            assert(a * 2 * c * 4 >= a * 8) by (nonlinear_arith)
                requires
                    a >= 1,
                    c >= 1,
            ;
            false
        },
        Some(ab) => match ab.checked_mul(c) {
            None => {
                assert(a * 2 * c * 4 == ab * c) by (nonlinear_arith)
                    requires
                        ab == a * 8,
                ;
                false
            },
            Some(abc) => {
                assert(a * 2 * c * 4 == abc) by (nonlinear_arith)
                    requires
                        ab == a * 8,
                        abc == ab * c,
                ;
                abc <= isize::MAX as usize
            },
        },
    }
}

/// Copies `row` into the grid at transition `t`, row `d`.
fn fill_row(grid: &mut StoichArray, t: usize, d: usize, row: &Vec<i32>)
    requires
        t < stoich_shape(*old(grid)).0,
        d < stoich_shape(*old(grid)).1,
        row@.len() == stoich_shape(*old(grid)).2,
        t < stoich_cells(*old(grid)).len(),
        d < stoich_cells(*old(grid))[t as int].len(),
        stoich_cells(*old(grid))[t as int][d as int].len() == row@.len(),
    ensures
        stoich_shape(*final(grid)) == stoich_shape(*old(grid)),
        stoich_cells(*final(grid)) == stoich_cells(*old(grid)).update(
            t as int,
            stoich_cells(*old(grid))[t as int].update(d as int, row@),
        ),
{
    let ghost start = stoich_cells(*grid);
    let n = row.len();
    let mut k: usize = 0;
    assert(row@.subrange(0, 0) + start[t as int][d as int].subrange(0, n as int) =~= start[t as int][d as int]);
    assert(start[t as int].update(d as int, start[t as int][d as int]) =~= start[t as int]);
    assert(start.update(t as int, start[t as int]) =~= start);
    while k < n
        invariant
            n == row@.len(),
            k <= n,
            t < start.len(),
            d < start[t as int].len(),
            start[t as int][d as int].len() == n,
            stoich_shape(*grid) == stoich_shape(*old(grid)),
            t < stoich_shape(*grid).0,
            d < stoich_shape(*grid).1,
            n == stoich_shape(*grid).2,
            stoich_cells(*grid) == start.update(
                t as int,
                start[t as int].update(
                    d as int,
                    row@.subrange(0, k as int) + start[t as int][d as int].subrange(k as int, n as int),
                ),
            ),
        decreases n - k,
    {
        let ghost cur = stoich_cells(*grid);
        grid.set(t, d, k, row[k]);
        let ghost upd = (row@.subrange(0, k as int) + start[t as int][d as int].subrange(k as int, n as int)).update(
            k as int,
            row@[k as int],
        );
        assert(upd =~= row@.subrange(0, k + 1) + start[t as int][d as int].subrange(k + 1, n as int));
        assert(cur[t as int].update(d as int, upd) =~= start[t as int].update(d as int, upd));
        assert(stoich_cells(*grid) =~= start.update(t as int, start[t as int].update(d as int, upd)));
        k = k + 1;
    }
    assert(row@.subrange(0, n as int) + start[t as int][d as int].subrange(n as int, n as int) =~= row@);
}

} // verus!
