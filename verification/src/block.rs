//! The interpolation-ready numeric table of one slice of a member.
//!
//! Numeric entries are carried verbatim as their decimal tokens, so the
//! verified core never computes on floating point; converting a token to a
//! machine number is the caller's business, at the interpolation edge.

use vstd::prelude::*;

verus! {

/// A requested particle id that a block does not carry.
#[derive(Debug, PartialEq, Eq, Structural)]
pub struct PidNotFound(pub i32);

/// One interpolation table: particle ids, the two coordinate grids, and a
/// dense value table laid out `[pid][x][mu2]`, row-major.
#[derive(Debug)]
pub struct Block {
    /// The particle ids of the discrete axis.
    pub pids: Vec<i32>,
    /// The numeric tokens of the momentum-fraction grid knots.
    pub xgrid: Vec<String>,
    /// The numeric tokens of the scale grid knots.
    pub mu2grid: Vec<String>,
    /// The numeric tokens of the table values, one per `(pid, x, mu2)` triple.
    pub values: Vec<String>,
}

/// The mathematical content of a [`Block`].
#[verifier::ext_equal]
pub struct BlockView {
    pub pids: Seq<i32>,
    pub xgrid: Seq<Seq<char>>,
    pub mu2grid: Seq<Seq<char>>,
    pub values: Seq<Seq<char>>,
}

impl View for Block {
    type V = BlockView;

    open spec fn view(&self) -> BlockView {
        BlockView {
            pids: self.pids@,
            xgrid: Seq::new(self.xgrid@.len(), |i: int| self.xgrid@[i]@),
            mu2grid: Seq::new(self.mu2grid@.len(), |i: int| self.mu2grid@[i]@),
            values: Seq::new(self.values@.len(), |i: int| self.values@[i]@),
        }
    }
}

impl BlockView {
    /// The shape invariant: one value per `(pid, x, mu2)` triple.
    pub open spec fn well_formed(self) -> bool {
        self.values.len() == self.pids.len() * self.xgrid.len() * self.mu2grid.len()
    }

    /// The position of `(p, x, m)` in the flat value table.
    pub open spec fn flat_index(self, p: int, x: int, m: int) -> int {
        p * (self.xgrid.len() * self.mu2grid.len()) + x * self.mu2grid.len() + m
    }
}

proof fn lemma_flat_in_range(np: int, nx: int, nm: int, p: int, x: int, m: int)
    by (nonlinear_arith)
    requires
        0 <= p < np,
        0 <= x < nx,
        0 <= m < nm,
    ensures
        0 <= p * (nx * nm) + x * nm + m < np * (nx * nm),
        np * (nx * nm) == (np * nx) * nm,
        0 <= x * nm,
        0 <= p * (nx * nm),
        x * nm + m < nx * nm,
        nx * nm <= np * (nx * nm),
{
}

impl Block {
    /// A block from its parts; the value table must have exactly one entry
    /// per `(pid, x, mu2)` triple.
    pub fn new(pids: Vec<i32>, xgrid: Vec<String>, mu2grid: Vec<String>, values: Vec<String>) -> (r:
        Block)
        requires
            values@.len() == pids@.len() * xgrid@.len() * mu2grid@.len(),
        ensures
            r@ =~~= (BlockView {
                pids: pids@,
                xgrid: Seq::new(xgrid@.len(), |i: int| xgrid@[i]@),
                mu2grid: Seq::new(mu2grid@.len(), |i: int| mu2grid@[i]@),
                values: Seq::new(values@.len(), |i: int| values@[i]@),
            }),
            r@.well_formed(),
    {
        Block { pids, xgrid, mu2grid, values }
    }

    /// The numeric token stored for the triple `(p, x, m)` of axis positions.
    pub fn value_at(&self, p: usize, x: usize, m: usize) -> (r: &String)
        requires
            self@.well_formed(),
            p < self@.pids.len(),
            x < self@.xgrid.len(),
            m < self@.mu2grid.len(),
        ensures
            r@ == self@.values[self@.flat_index(p as int, x as int, m as int)],
    {
        let n = self.values.len();
        proof {
            lemma_flat_in_range(
                self@.pids.len() as int,
                self@.xgrid.len() as int,
                self@.mu2grid.len() as int,
                p as int,
                x as int,
                m as int,
            );
        }
        let nm = self.mu2grid.len();
        let nx = self.xgrid.len();
        let plane = nx * nm;
        let idx = p * plane + x * nm + m;
        &self.values[idx]
    }

    /// The position of `pid` on the discrete axis.
    ///
    /// Returns the first position holding `pid`, and fails exactly when the
    /// block does not carry `pid`.
    pub fn pid_index(&self, pid: i32) -> (r: Result<usize, PidNotFound>)
        ensures
            r matches Ok(i) ==> i < self@.pids.len() && self@.pids[i as int] == pid && forall|
                j: int,
            | 0 <= j < i ==> self@.pids[j] != pid,
            r is Err <==> forall|j: int| 0 <= j < self@.pids.len() ==> self@.pids[j] != pid,
            r matches Err(e) ==> e == PidNotFound(pid),
    {
        let mut i: usize = 0;
        while i < self.pids.len()
            invariant
                i <= self@.pids.len(),
                forall|j: int| 0 <= j < i ==> self@.pids[j] != pid,
            decreases self@.pids.len() - i,
        {
            if self.pids[i] == pid {
                return Ok(i);
            }
            i = i + 1;
        }
        Err(PidNotFound(pid))
    }
}

} // verus!
