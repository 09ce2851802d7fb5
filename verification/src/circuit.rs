//! The demonstration circuits' statements.
//!
//! The standard PLONK circuit has one custom gate over three advice columns
//! `a`, `b`, `c`, five fixed columns and one instance column:
//!
//! `q_a·a + q_b·b + q_c·c + q_ab·a·b + constant + instance = 0`
//!
//! on every row, with copy constraints between advice cells. Its witness is a
//! single field element; the prover supplies it as the only public input, in
//! the first row of the instance column, the rest of which is zero. The zkVM guest
//! programs prove `y = x³ + x + 5` for their input `x`.
//!
//! Field elements of the table are written here as integers: every value the
//! circuit assigns is small, and a row whose gate sums to zero over the
//! integers sums to zero in every field.
use vstd::prelude::*;

verus! {

/// The cells of one row of the standard PLONK table that the circuit
/// assigns: the advice cells and the fixed cells. The instance column is not
/// assigned by the circuit; the prover supplies it (see `instances`).
#[derive(Debug, Clone, Copy, PartialEq, Eq)]
pub struct PlonkRow {
    pub a: i64,
    pub b: i64,
    pub c: i64,
    pub q_a: i64,
    pub q_b: i64,
    pub q_c: i64,
    pub q_ab: i64,
    pub constant: i64,
}

/// The sum that the custom constraint computes on row `r` with instance cell
/// `instance`; it must be zero.
pub open spec fn gate(r: PlonkRow, instance: int) -> int {
    r.q_a * r.a + r.q_b * r.b + r.q_c * r.c + r.q_ab * r.a * r.b + r.constant + instance
}

/// The instance cell on row `row` of an instance column whose public inputs
/// are `public`: the inputs fill the first rows, zero the rest.
pub open spec fn instance_cell(public: Seq<int>, row: int) -> int {
    if 0 <= row < public.len() {
        public[row]
    } else {
        0
    }
}

/// A row with every cell zero.
pub open spec fn zero_row() -> PlonkRow {
    PlonkRow { a: 0, b: 0, c: 0, q_a: 0, q_b: 0, q_c: 0, q_ab: 0, constant: 0 }
}

/// The table that the circuit assigns for witness `x`: `a = x` against
/// `q_a = -1` on row 0; `a = -5` against the selectors 1 to 5 on row 1;
/// `a = 1` on row 2, copied into `b` on row 3 and into `c` on row 4. Cells not
/// named are zero.
pub open spec fn plonk_table(x: u32) -> Seq<PlonkRow> {
    seq![
        PlonkRow { a: x as i64, q_a: -1i64, ..zero_row() },
        PlonkRow { a: -5i64, q_a: 1, q_b: 2, q_c: 3, q_ab: 4, constant: 5, ..zero_row() },
        PlonkRow { a: 1, ..zero_row() },
        PlonkRow { b: 1, ..zero_row() },
        PlonkRow { c: 1, ..zero_row() },
    ]
}

/// The standard PLONK circuit with its witness, which is also its public input.
#[derive(Debug, Clone, Copy, PartialEq, Eq)]
pub struct StandardPlonk(pub u32);

impl StandardPlonk {
    /// The circuit whose witness is the random number `random`.
    pub fn rand(random: u32) -> (r: StandardPlonk)
        ensures
            r.0 == random,
    {
        StandardPlonk(random)
    }

    /// The circuit without a witness (the witness zero), for key generation.
    pub fn without_witnesses(&self) -> (r: StandardPlonk)
        ensures
            r.0 == 0,
    {
        StandardPlonk(0)
    }

    /// The number of public inputs in each instance column: one column of one.
    pub fn num_instance() -> (r: Vec<usize>)
        ensures
            r@ == seq![1usize],
    {
        let r: Vec<usize> = vec![1];
        assert(r@ =~= seq![1usize]);
        r
    }

    /// The public inputs: one column holding the witness.
    pub fn instances(&self) -> (r: Vec<Vec<u32>>)
        ensures
            r@.len() == 1,
            r@[0]@ == seq![self.0],
    {
        let column: Vec<u32> = vec![self.0];
        assert(column@ =~= seq![self.0]);
        vec![column]
    }

    /// The table of the circuit's assignment.
    pub fn synthesize(&self) -> (r: Vec<PlonkRow>)
        ensures
            r@ == plonk_table(self.0),
            r@.len() == 5,
            r@[0] == (PlonkRow { a: self.0 as i64, q_a: -1i64, ..zero_row() }),
            r@[1] == (PlonkRow {
                a: -5i64,
                q_a: 1,
                q_b: 2,
                q_c: 3,
                q_ab: 4,
                constant: 5,
                ..zero_row()
            }),
            r@[2] == (PlonkRow { a: 1, ..zero_row() }),
            r@[3] == (PlonkRow { b: 1, ..zero_row() }),
            r@[4] == (PlonkRow { c: 1, ..zero_row() }),
    {
        let zero = PlonkRow {
            a: 0,
            b: 0,
            c: 0,
            q_a: 0,
            q_b: 0,
            q_c: 0,
            q_ab: 0,
            constant: 0,
        };
        let x: i64 = self.0 as i64;
        let r: Vec<PlonkRow> = vec![
            PlonkRow { a: x, q_a: -1, ..zero },
            PlonkRow { a: -5, q_a: 1, q_b: 2, q_c: 3, q_ab: 4, constant: 5, ..zero },
            PlonkRow { a: 1, ..zero },
            PlonkRow { b: 1, ..zero },
            PlonkRow { c: 1, ..zero },
        ];
        assert(r@ =~= plonk_table(self.0));
        r
    }
}

/// The custom constraint on the rows of the circuit's table, as a function
/// of the instance cell: on row 0 it is the instance minus the witness, on
/// the other rows the instance itself.
proof fn lemma_table_gates(x: u32, v: int)
    ensures
        gate(plonk_table(x)[0], v) == v - x,
        gate(plonk_table(x)[1], v) == v,
        gate(plonk_table(x)[2], v) == v,
        gate(plonk_table(x)[3], v) == v,
        gate(plonk_table(x)[4], v) == v,
{
    let t = plonk_table(x);
    assert(gate(t[0], v) == v - x) by (nonlinear_arith)
        requires
            t[0].q_a == -1,
            t[0].a == x,
            t[0].b == 0,
            t[0].c == 0,
            t[0].q_b == 0,
            t[0].q_c == 0,
            t[0].q_ab == 0,
            t[0].constant == 0,
    ;
    assert(gate(t[1], v) == v) by (nonlinear_arith)
        requires
            t[1].a == -5,
            t[1].b == 0,
            t[1].c == 0,
            t[1].q_a == 1,
            t[1].q_ab == 4,
            t[1].constant == 5,
    ;
    assert(gate(t[2], v) == v) by (nonlinear_arith)
        requires
            t[2].q_a == 0,
            t[2].q_b == 0,
            t[2].q_c == 0,
            t[2].q_ab == 0,
            t[2].constant == 0,
    ;
    assert(gate(t[3], v) == v) by (nonlinear_arith)
        requires
            t[3].q_a == 0,
            t[3].q_b == 0,
            t[3].q_c == 0,
            t[3].q_ab == 0,
            t[3].constant == 0,
    ;
    assert(gate(t[4], v) == v) by (nonlinear_arith)
        requires
            t[4].q_a == 0,
            t[4].q_b == 0,
            t[4].q_c == 0,
            t[4].q_ab == 0,
            t[4].constant == 0,
    ;
}

/// For every witness, the circuit's table with the public input that
/// `instances` gives (the witness) makes the custom constraint zero on every
/// row, and its copy constraints hold: the proof of any witness verifies.
pub proof fn law_plonk_table_satisfied(x: u32)
    ensures
        plonk_table(x).len() == 5,
        forall|i: int|
            0 <= i < 5 ==> gate(#[trigger] plonk_table(x)[i], instance_cell(seq![x as int], i))
                == 0,
        plonk_table(x)[3].b == plonk_table(x)[2].a,
        plonk_table(x)[4].c == plonk_table(x)[2].a,
{
    lemma_table_gates(x, x as int);
    lemma_table_gates(x, 0);
    assert forall|i: int| 0 <= i < 5 implies gate(
        #[trigger] plonk_table(x)[i],
        instance_cell(seq![x as int], i),
    ) == 0 by {
        if i == 0 {
            assert(instance_cell(seq![x as int], 0) == x);
        } else {
            assert(instance_cell(seq![x as int], i) == 0);
        }
    }
}

/// The cells that the circuit assigns: the witness in `a` against
/// `q_a = -1` on row 0; `-5` in `a` against the selectors 1, 2, 3, 4 and the
/// constant 5 on row 1; the value one in `a` on row 2, copied into `b` on row
/// 3 and `c` on row 4; every other cell zero.
pub proof fn law_plonk_table_cells(x: u32)
    ensures
        plonk_table(x).len() == 5,
        plonk_table(x)[0].a == x && plonk_table(x)[0].q_a == -1,
        plonk_table(x)[1].a == -5 && plonk_table(x)[1].q_a == 1 && plonk_table(x)[1].q_b == 2
            && plonk_table(x)[1].q_c == 3 && plonk_table(x)[1].q_ab == 4 && plonk_table(x)[1].constant
            == 5,
        plonk_table(x)[2].a == 1,
        plonk_table(x)[3].b == 1,
        plonk_table(x)[4].c == 1,
        forall|i: int|
            0 <= i < 5 && i != 0 && i != 1 ==> (#[trigger] plonk_table(x)[i]).q_a == 0
                && plonk_table(x)[i].q_b == 0 && plonk_table(x)[i].q_c == 0 && plonk_table(x)[i].q_ab
                == 0 && plonk_table(x)[i].constant == 0,
        forall|i: int|
            0 <= i < 5 ==> (i != 0 && i != 1 && i != 2 ==> (#[trigger] plonk_table(x)[i]).a == 0) && (
            i != 3 ==> plonk_table(x)[i].b == 0) && (i != 4 ==> plonk_table(x)[i].c == 0),
        plonk_table(x)[0].q_b == 0 && plonk_table(x)[0].q_c == 0 && plonk_table(x)[0].q_ab == 0
            && plonk_table(x)[0].constant == 0,
{
}

/// The circuit's table is satisfied by exactly one instance column: the
/// witness on row 0 and zero on the other rows. A public input other than
/// the witness makes the custom constraint fail on row 0.
pub proof fn law_plonk_table_sound(x: u32, instance: Seq<int>)
    requires
        instance.len() == 5,
    ensures
        (forall|i: int| 0 <= i < 5 ==> gate(#[trigger] plonk_table(x)[i], instance[i]) == 0) <==> (
        instance[0] == x && instance[1] == 0 && instance[2] == 0 && instance[3] == 0 && instance[4]
            == 0),
        instance[0] != x ==> gate(plonk_table(x)[0], instance[0]) != 0,
{
    lemma_table_gates(x, instance[0]);
    lemma_table_gates(x, instance[1]);
    lemma_table_gates(x, instance[2]);
    lemma_table_gates(x, instance[3]);
    lemma_table_gates(x, instance[4]);
    if instance[0] == x && instance[1] == 0 && instance[2] == 0 && instance[3] == 0 && instance[4]
        == 0 {
        assert forall|i: int| 0 <= i < 5 implies gate(#[trigger] plonk_table(x)[i], instance[i])
            == 0 by {
            if i == 0 {
            } else if i == 1 {
            } else if i == 2 {
            } else if i == 3 {
            } else {
            }
        }
    }
}

/// The statement that the zkVM guests prove: `x³ + x + 5`.
pub open spec fn cubic_statement(x: int) -> int {
    x * x * x + x + 5
}

/// The guests' statement is the cube of the input plus the input plus five;
/// as the input grows by one it grows by `3x² + 3x + 2`.
pub proof fn law_cubic_statement(x: int)
    ensures
        cubic_statement(x) == x * x * x + x + 5,
        cubic_statement(x + 1) - cubic_statement(x) == 3 * x * x + 3 * x + 2,
        cubic_statement(0) == 5,
{
    assert((x + 1) * (x + 1) * (x + 1) == x * x * x + 3 * x * x + 3 * x + 1) by (nonlinear_arith);
}

/// The output that a zkVM guest commits for its input `x`: `x³ + x + 5`.
pub fn guest_output(x: usize) -> (y: usize)
    requires
        cubic_statement(x as int) <= usize::MAX,
    ensures
        y == cubic_statement(x as int),
        y == x * x * x + x + 5,
{
    assert(x * x <= x * x * x + x + 5 && x * x * x <= x * x * x + x + 5) by (nonlinear_arith)
        requires
            0 <= x,
    ;
    let x_cube: usize = x * x * x;
    x_cube + x + 5
}

} // verus!
