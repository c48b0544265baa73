use vstd::prelude::*;
use rand::rngs::StdRng;
use rand::{Rng, SeedableRng};
use crate::color::{in_unit, spec_about, Axis, Color, ColorRotation, Operation};
use crate::command::Command;
use crate::filter::Filter;
use crate::geometry::{Transform, MAX_SIDE, ONE};
use crate::matrix::{Boundary, Matrix, Step};
use crate::program::{spec_next, Program};

verus! {

#[verifier::external_type_specification]
#[verifier::external_body]
pub struct ExStdRng(StdRng);

/// Relies on rand's `SeedableRng::seed_from_u64`: a generator seeded from `seed`.
#[verifier::external_body]
fn seeded_rng(seed: u64) -> StdRng {
    StdRng::seed_from_u64(seed)
}

/// Relies on rand's `Rng::gen::<u8>`: a byte drawn from the generator.
#[verifier::external_body]
fn random_byte(rng: &mut StdRng) -> u8 {
    rng.gen::<u8>()
}

/// Columns of the grid an interpreter starts with.
pub const DEFAULT_COLS: usize = 80;

/// Rows of the grid an interpreter starts with.
pub const DEFAULT_ROWS: usize = 20;

/// Seed of the generator an interpreter starts with: runs are reproducible.
pub const SEED: u64 = 0;

/// Everything a running program reads and changes.
pub struct State {
    /// The grid.
    pub matrix: Matrix,
    /// Applied to each destination coordinate to find where a step samples.
    pub transform: Transform,
    /// What a step does to the colours it samples.
    pub operation: Operation,
    /// Index of the next command of the program.
    pub program_counter: usize,
    /// Passes completed through the current block.
    pub loop_counter: usize,
    /// Whether diagnostics are written.
    pub verbose: bool,
    /// The source of the colours drawn at random.
    pub rng: StdRng,
}

/// The step that a filter command makes in state `s`.
pub open spec fn step_of(s: &State, filter: Filter) -> Step {
    Step { filter, operation: s.operation, transform: s.transform, boundary: Boundary::Background }
}

/// Whether `new` is `old` after one full-grid pass of `step`, with some colours drawn at random.
pub open spec fn is_render(old: Matrix, new: Matrix, step: Step) -> bool {
    &&& new.wf()
    &&& new.spec_cols() == old.spec_cols()
    &&& new.spec_rows() == old.spec_rows()
    &&& exists|d: Seq<Color>| #[trigger] rendered_with(old, new, step, d)
}

/// Whether each pixel of `new` is as `step` renders it from `old`, where `d`
/// holds the colours drawn at random, one per cell.
pub open spec fn rendered_with(old: Matrix, new: Matrix, step: Step, d: Seq<Color>) -> bool {
    &&& d.len() == old@.len()
    &&& forall|col: int, row: int|
        0 <= col < old.spec_cols() && 0 <= row < old.spec_rows()
            ==> #[trigger] new.spec_cell(col, row) == old.spec_rendered(step, d, col, row)
}

/// Whether a command needs the world outside the library: files, the
/// terminal, or the trigonometry of a rotation.
pub open spec fn needs_outside(c: Command) -> bool {
    c is Load || c is Save || c is Print || c is Repl || c is Rotate || c is RotateColor
}

/// A resize to a side larger than `MAX_SIDE`.
#[derive(Clone, Copy, Debug, PartialEq, Eq, Structural)]
pub struct SizeError {
    pub cols: usize,
    pub rows: usize,
}

/// Whether `c` resizes the grid past `MAX_SIDE` on some side.
pub open spec fn too_large(c: Command) -> bool {
    match c {
        Command::Resize { cols, rows } => cols > MAX_SIDE || rows > MAX_SIDE,
        _ => false,
    }
}

/// Whether `new` holds what `old` held.
pub open spec fn unchanged(old: &State, new: &State) -> bool {
    &&& new.wf()
    &&& new.matrix == old.matrix
    &&& new.transform == old.transform
    &&& new.operation == old.operation
    &&& new.verbose == old.verbose
    &&& new.program_counter == old.program_counter
    &&& new.loop_counter == old.loop_counter
}

/// Whether `new` is `old` after the command `c` ran, leaving the program
/// counter and loop counter aside.
pub open spec fn executed(old: &State, new: &State, c: Command) -> bool {
    &&& new.wf()
    &&& match c {
        Command::Filter(f) => is_render(old.matrix, new.matrix, step_of(old, f)),
        Command::Resize { cols, rows } => {
            &&& new.matrix.spec_cols() == cols
            &&& new.matrix.spec_rows() == rows
            &&& new.matrix@ == Seq::new((cols * rows) as nat, |i: int| Color::black())
        },
        _ => new.matrix == old.matrix,
    }
    &&& new.operation == (if let Command::Operation(op) = c {
        if op.wf() { op } else { old.operation }
    } else {
        old.operation
    })
    &&& new.verbose == (if c is Verbose { !old.verbose } else { old.verbose })
    &&& new.transform == old.transform
}

/// A symmetry pass: `step` rendered `times` times over, each pass reading
/// what the one before wrote.
#[derive(Clone, Copy, Debug, PartialEq, Eq, Structural)]
pub struct Composition {
    pub step: Step,
    pub times: usize,
}

/// Whether `ms` is a chain of grids, each one full-grid pass of `step` after the one before.
pub open spec fn is_chain(ms: Seq<Matrix>, step: Step) -> bool {
    forall|i: int| 0 <= i < ms.len() - 1 ==> #[trigger] is_render(ms[i], ms[i + 1], step)
}

impl State {
    pub open spec fn wf(&self) -> bool {
        self.matrix.wf() && self.transform.wf() && self.operation.wf()
    }

    /// A background grid of `DEFAULT_COLS` by `DEFAULT_ROWS`, the identity
    /// transform, inversion, both counters at zero, diagnostics off.
    pub fn new() -> (s: State)
        ensures
            s.wf(),
            s.matrix.spec_cols() == DEFAULT_COLS,
            s.matrix.spec_rows() == DEFAULT_ROWS,
            s.matrix@ == Seq::new((DEFAULT_COLS * DEFAULT_ROWS) as nat, |i: int| Color::black()),
            s.transform == Transform::identity_spec(),
            s.operation == Operation::Invert,
            s.program_counter == 0,
            s.loop_counter == 0,
            !s.verbose,
    {
        State {
            matrix: Matrix::new(DEFAULT_COLS, DEFAULT_ROWS),
            transform: Transform::identity(),
            operation: Operation::Invert,
            program_counter: 0,
            loop_counter: 0,
            verbose: false,
            rng: seeded_rng(SEED),
        }
    }

    /// `n` colours drawn at random.
    fn draw_colors(&mut self, n: usize) -> (d: Vec<Color>)
        ensures
            d@.len() == n,
            final(self).matrix == old(self).matrix,
            final(self).transform == old(self).transform,
            final(self).operation == old(self).operation,
            final(self).program_counter == old(self).program_counter,
            final(self).loop_counter == old(self).loop_counter,
            final(self).verbose == old(self).verbose,
    {
        let mut d: Vec<Color> = Vec::new();
        let mut i: usize = 0;
        while i < n
            invariant
                i <= n,
                d@.len() == i,
                self.matrix == old(self).matrix,
                self.transform == old(self).transform,
                self.operation == old(self).operation,
                self.program_counter == old(self).program_counter,
                self.loop_counter == old(self).loop_counter,
                self.verbose == old(self).verbose,
            decreases n - i,
        {
            let r = random_byte(&mut self.rng);
            let g = random_byte(&mut self.rng);
            let b = random_byte(&mut self.rng);
            d.push(Color { r, g, b });
            i += 1;
        }
        d
    }

    /// One full-grid pass of `step`, committed at once.
    pub fn render(&mut self, step: &Step)
        requires
            old(self).wf(),
            step.wf(),
        ensures
            is_render(old(self).matrix, final(self).matrix, *step),
            final(self).wf(),
            final(self).transform == old(self).transform,
            final(self).operation == old(self).operation,
            final(self).program_counter == old(self).program_counter,
            final(self).loop_counter == old(self).loop_counter,
            final(self).verbose == old(self).verbose,
    {
        let n = self.matrix.cells_len();
        let d = self.draw_colors(n);
        let out = self.matrix.render(step, &d);
        proof {
            let m = old(self).matrix;
            assert(rendered_with(m, out, *step, d@));
        }
        self.matrix = out;
    }

    /// Renders a composition: `times` passes, in order, each committed before
    /// the next begins.
    pub fn compose(&mut self, c: &Composition)
        requires
            old(self).wf(),
            c.step.wf(),
        ensures
            final(self).wf(),
            exists|ms: Seq<Matrix>| #[trigger] is_chain(ms, c.step) && ms.len() == c.times + 1
                && ms[0] == old(self).matrix && ms.last() == final(self).matrix,
            final(self).transform == old(self).transform,
            final(self).operation == old(self).operation,
            final(self).program_counter == old(self).program_counter,
            final(self).loop_counter == old(self).loop_counter,
            final(self).verbose == old(self).verbose,
    {
        let ghost ms: Seq<Matrix> = seq![self.matrix];
        let mut i: usize = 0;
        while i < c.times
            invariant
                self.wf(),
                c.step.wf(),
                i <= c.times,
                is_chain(ms, c.step),
                ms.len() == i + 1,
                ms[0] == old(self).matrix,
                ms.last() == self.matrix,
                self.transform == old(self).transform,
                self.operation == old(self).operation,
                self.program_counter == old(self).program_counter,
                self.loop_counter == old(self).loop_counter,
                self.verbose == old(self).verbose,
            decreases c.times - i,
        {
            self.render(&c.step);
            proof {
                let next = ms.push(self.matrix);
                assert forall|k: int| 0 <= k < next.len() - 1 implies #[trigger] is_render(next[k], next[k + 1], c.step) by {
                    if k < ms.len() - 1 {
                        assert(next[k] == ms[k] && next[k + 1] == ms[k + 1]);
                    }
                }
                ms = next;
            }
            i += 1;
        }
        assert(is_chain(ms, c.step));
    }

    /// Sets the transform to the rotation whose angle has fixed-point cosine
    /// `cos` and sine `sin`; refuses, changing nothing, values outside `[-ONE, ONE]`.
    pub fn rotate(&mut self, cos: i64, sin: i64) -> (ok: bool)
        requires
            old(self).wf(),
        ensures
            ok == (in_unit(cos) && in_unit(sin)),
            final(self).wf(),
            final(self).transform == (if ok {
                Transform { a: cos, b: sin, tx: 0, ty: 0 }
            } else {
                old(self).transform
            }),
            final(self).matrix == old(self).matrix,
            final(self).operation == old(self).operation,
            final(self).program_counter == old(self).program_counter,
            final(self).loop_counter == old(self).loop_counter,
    {
        if -ONE <= cos && cos <= ONE && -ONE <= sin && sin <= ONE {
            self.transform = Transform { a: cos, b: sin, tx: 0, ty: 0 };
            true
        } else {
            false
        }
    }

    /// Sets the operation to the rotation of colour space about `axis` whose
    /// angle has fixed-point cosine `cos` and sine `sin`; refuses, changing
    /// nothing, values outside `[-ONE, ONE]`.
    pub fn rotate_color(&mut self, axis: Axis, cos: i64, sin: i64) -> (ok: bool)
        requires
            old(self).wf(),
        ensures
            ok == (in_unit(cos) && in_unit(sin)),
            final(self).wf(),
            final(self).operation == (if ok {
                Operation::RotateColor(spec_about(axis, cos, sin))
            } else {
                old(self).operation
            }),
            final(self).matrix == old(self).matrix,
            final(self).transform == old(self).transform,
            final(self).program_counter == old(self).program_counter,
            final(self).loop_counter == old(self).loop_counter,
    {
        if -ONE <= cos && cos <= ONE && -ONE <= sin && sin <= ONE {
            self.operation = Operation::RotateColor(ColorRotation::about(axis, cos, sin));
            true
        } else {
            false
        }
    }

    /// Replaces the grid, as a load does.
    pub fn replace_matrix(&mut self, m: Matrix)
        requires
            old(self).wf(),
            m.wf(),
        ensures
            final(self).wf(),
            final(self).matrix == m,
            final(self).transform == old(self).transform,
            final(self).operation == old(self).operation,
            final(self).program_counter == old(self).program_counter,
            final(self).loop_counter == old(self).loop_counter,
    {
        self.matrix = m;
    }

    /// Runs one command outside any program: control commands do nothing.
    /// Returns whether the command needs the world outside the library, in
    /// which case nothing else has changed; fails, changing nothing, on a
    /// resize past `MAX_SIDE`.
    pub fn execute(&mut self, c: &Command) -> (r: Result<bool, SizeError>)
        requires
            old(self).wf(),
        ensures
            r is Err <==> too_large(*c),
            r matches Err(e) ==> *c == (Command::Resize { cols: e.cols, rows: e.rows })
                && unchanged(old(self), final(self)),
            r matches Ok(outside) ==> outside == needs_outside(*c)
                && executed(old(self), final(self), *c),
            final(self).program_counter == old(self).program_counter,
            final(self).loop_counter == old(self).loop_counter,
    {
        match c {
            Command::Filter(f) => {
                let step = Step {
                    filter: *f,
                    operation: self.operation,
                    transform: self.transform,
                    boundary: Boundary::Background,
                };
                self.render(&step);
                Ok(false)
            },
            Command::Operation(op) => {
                if let Operation::RotateColor(m) = op {
                    if !m.is_rotation() {
                        return Ok(false);
                    }
                }
                self.operation = *op;
                Ok(false)
            },
            Command::Resize { cols, rows } => {
                if *cols > MAX_SIDE || *rows > MAX_SIDE {
                    return Err(SizeError { cols: *cols, rows: *rows });
                }
                self.matrix = Matrix::new(*cols, *rows);
                Ok(false)
            },
            Command::Verbose => {
                self.verbose = !self.verbose;
                Ok(false)
            },
            Command::For(_) | Command::Loop => Ok(false),
            _ => Ok(true),
        }
    }

    /// Runs the command at the program counter and moves the counters on.
    /// Returns whether that command needs the world outside the library, in
    /// which case only the counters have changed; fails, changing nothing, on
    /// a resize past `MAX_SIDE`.
    pub fn step(&mut self, program: &Program) -> (r: Result<bool, SizeError>)
        requires
            old(self).wf(),
            program.wf(),
            old(self).program_counter < program@.len(),
            old(self).loop_counter < usize::MAX,
        ensures
            r is Err <==> too_large(program@[old(self).program_counter as int]),
            r is Err ==> unchanged(old(self), final(self)),
            r matches Ok(outside) ==> {
                &&& outside == needs_outside(program@[old(self).program_counter as int])
                &&& executed(old(self), final(self), program@[old(self).program_counter as int])
                &&& (final(self).program_counter as int, final(self).loop_counter as int) == spec_next(
                    program@,
                    program.spec_partner(),
                    old(self).program_counter as int,
                    old(self).loop_counter as int,
                )
            },
    {
        let pc = self.program_counter;
        let len = program.len();
        let c = program.get(pc);
        proof {
            if c is For {
                assert(crate::program::linked(program@, program.spec_partner(), pc as int, program.spec_partner()[pc as int] as int));
            }
        }
        let outside = match self.execute(c) {
            Ok(outside) => outside,
            Err(e) => {
                return Err(e);
            },
        };
        match c {
            Command::For(n) => {
                if self.loop_counter >= *n {
                    self.program_counter = program.partner(pc) + 1;
                    self.loop_counter = 0;
                } else {
                    self.program_counter = pc + 1;
                }
            },
            Command::Loop => {
                self.program_counter = program.partner(pc);
                self.loop_counter = self.loop_counter + 1;
            },
            _ => {
                self.program_counter = pc + 1;
            },
        }
        Ok(outside)
    }
}

} // verus!
