use vstd::prelude::*;
use crate::command::Command;

verus! {

/// Why a list of commands is no program.
#[derive(Clone, Copy, Debug, PartialEq, Eq, Structural)]
pub enum ProgramError {
    /// The command at this index is a `for` inside an open block, or a `loop`
    /// outside any block: blocks do not nest.
    Misplaced(usize),
    /// The `for` at this index has no `loop` after it.
    Unclosed(usize),
}

/// A list of commands whose `for` / `loop` blocks are matched, with each
/// block's two ends linked to each other.
#[derive(Clone, Debug)]
pub struct Program {
    commands: Vec<Command>,
    partner: Vec<usize>,
}

/// The open block after the first `n` commands: `Some(None)` where none is
/// open, `Some(Some(f))` where the `for` at `f` is open, `None` where the
/// blocks are already broken.
pub open spec fn scan(cmds: Seq<Command>, n: int) -> Option<Option<int>>
    decreases n,
{
    if n <= 0 {
        Some(None)
    } else {
        match scan(cmds, n - 1) {
            None => None,
            Some(open) => match cmds[n - 1] {
                Command::For(_) => if open is Some { None } else { Some(Some(n - 1)) },
                Command::Loop => if open is Some { Some(None) } else { None },
                _ => Some(open),
            },
        }
    }
}

proof fn lemma_scan_broken(cmds: Seq<Command>, j: int, k: int)
    requires
        0 <= j <= k,
        scan(cmds, j) is None,
    ensures
        scan(cmds, k) is None,
    decreases k - j,
{
    if j < k {
        lemma_scan_broken(cmds, j, k - 1);
    }
}

/// Whether the blocks of `cmds` are matched and none is nested in another.
pub open spec fn balanced(cmds: Seq<Command>) -> bool {
    scan(cmds, cmds.len() as int) == Some(None::<int>)
}

/// The `for` at `f` and the `loop` at `l` close a block with no `for` or `loop`
/// inside, and `partner` links them.
pub open spec fn linked(cmds: Seq<Command>, partner: Seq<usize>, f: int, l: int) -> bool {
    &&& 0 <= f < l < cmds.len()
    &&& cmds[f] is For
    &&& cmds[l] is Loop
    &&& partner[f] == l
    &&& partner[l] == f
    &&& forall|m: int| f < m < l ==> !(#[trigger] cmds[m]).is_control()
}

/// Every `for` and every `loop` of `cmds` is one end of a linked block.
pub open spec fn jumps_ok(cmds: Seq<Command>, partner: Seq<usize>) -> bool {
    &&& partner.len() == cmds.len()
    &&& forall|j: int| 0 <= j < cmds.len() && (#[trigger] cmds[j]) is For
        ==> linked(cmds, partner, j, partner[j] as int)
    &&& forall|j: int| 0 <= j < cmds.len() && (#[trigger] cmds[j]) is Loop
        ==> linked(cmds, partner, partner[j] as int, j)
}

pub open spec fn as_int(o: Option<usize>) -> Option<int> {
    match o {
        Some(v) => Some(v as int),
        None => None,
    }
}

impl Program {
    pub closed spec fn view(&self) -> Seq<Command> {
        self.commands@
    }

    pub closed spec fn spec_partner(&self) -> Seq<usize> {
        self.partner@
    }

    pub open spec fn wf(&self) -> bool {
        jumps_ok(self.view(), self.spec_partner())
    }

    /// Links the blocks of `commands`, or says where they are broken.
    pub fn new(commands: Vec<Command>) -> (r: Result<Program, ProgramError>)
        ensures
            r is Ok <==> balanced(commands@),
            r matches Ok(p) ==> p.wf() && p@ == commands@,
            r matches Err(ProgramError::Misplaced(i)) ==> i < commands@.len()
                && scan(commands@, i as int) is Some && scan(commands@, i + 1) is None,
            r matches Err(ProgramError::Unclosed(i)) ==> scan(commands@, commands@.len() as int)
                == Some(Some(i as int)),
    {
        let n = commands.len();
        let mut partner: Vec<usize> = Vec::new();
        let mut i: usize = 0;
        while i < n
            invariant
                i <= n,
                n == commands@.len(),
                partner@.len() == i,
            decreases n - i,
        {
            partner.push(0);
            i += 1;
        }
        let mut open: Option<usize> = None;
        let mut i: usize = 0;
        while i < n
            invariant
                i <= n,
                n == commands@.len(),
                partner@.len() == n,
                scan(commands@, i as int) == Some(as_int(open)),
                open matches Some(o) ==> o < i && commands@[o as int] is For
                    && forall|m: int| o < m < i ==> !(#[trigger] commands@[m]).is_control(),
                forall|j: int| 0 <= j < i && (#[trigger] commands@[j]) is For && open != Some(j as usize)
                    ==> partner@[j] < i && linked(commands@, partner@, j, partner@[j] as int),
                forall|j: int| 0 <= j < i && (#[trigger] commands@[j]) is Loop
                    ==> linked(commands@, partner@, partner@[j] as int, j),
            decreases n - i,
        {
            match &commands[i] {
                Command::For(_) => {
                    if open.is_some() {
                        proof { lemma_scan_broken(commands@, i + 1, n as int); }
                        return Err(ProgramError::Misplaced(i));
                    }
                    open = Some(i);
                },
                Command::Loop => {
                    match open {
                        None => {
                            proof { lemma_scan_broken(commands@, i + 1, n as int); }
                            return Err(ProgramError::Misplaced(i));
                        },
                        Some(o) => {
                            partner.set(o, i);
                            partner.set(i, o);
                            open = None;
                            assert(linked(commands@, partner@, o as int, i as int));
                        },
                    }
                },
                _ => {},
            }
            i += 1;
        }
        if let Some(o) = open {
            return Err(ProgramError::Unclosed(o));
        }
        Ok(Program { commands, partner })
    }

    pub fn len(&self) -> (n: usize)
        ensures
            n == self@.len(),
    {
        self.commands.len()
    }

    pub fn get(&self, i: usize) -> (c: &Command)
        requires
            i < self@.len(),
        ensures
            *c == self@[i as int],
    {
        &self.commands[i]
    }

    pub fn partner(&self, i: usize) -> (j: usize)
        requires
            i < self@.len(),
            self.wf(),
        ensures
            j == self.spec_partner()[i as int],
    {
        self.partner[i]
    }
}

/// The program counter and loop counter after the command at `pc` runs: a
/// `for` whose count is reached jumps past its `loop` and clears the loop
/// counter; a `loop` jumps back to its `for` and counts one more pass; any
/// other command moves on by one.
pub open spec fn spec_next(cmds: Seq<Command>, partner: Seq<usize>, pc: int, lc: int) -> (int, int) {
    if 0 <= pc < cmds.len() {
        match cmds[pc] {
            Command::For(n) => if lc >= n { (partner[pc] + 1, 0int) } else { (pc + 1, lc) },
            Command::Loop => (partner[pc] as int, lc + 1),
            _ => (pc + 1, lc),
        }
    } else {
        (pc, lc)
    }
}

/// The program counter and loop counter after `t` commands run from `(pc, lc)`.
pub open spec fn spec_run(cmds: Seq<Command>, partner: Seq<usize>, pc: int, lc: int, t: nat) -> (int, int)
    decreases t,
{
    if t == 0 {
        (pc, lc)
    } else {
        let s = spec_run(cmds, partner, pc, lc, (t - 1) as nat);
        spec_next(cmds, partner, s.0, s.1)
    }
}

proof fn lemma_run_split(cmds: Seq<Command>, partner: Seq<usize>, pc: int, lc: int, a: nat, b: nat)
    ensures
        spec_run(cmds, partner, pc, lc, a + b) == ({
            let s = spec_run(cmds, partner, pc, lc, a);
            spec_run(cmds, partner, s.0, s.1, b)
        }),
    decreases b,
{
    if b > 0 {
        lemma_run_split(cmds, partner, pc, lc, a, (b - 1) as nat);
        assert((a + b - 1) as nat == a + (b - 1) as nat);
    }
}

proof fn lemma_partial_pass(cmds: Seq<Command>, partner: Seq<usize>, f: int, k: int, r: nat)
    requires
        jumps_ok(cmds, partner),
        0 <= f < cmds.len(),
        cmds[f] is For,
        0 <= k < cmds[f]->For_0,
        r < partner[f] - f + 1,
    ensures
        spec_run(cmds, partner, f, k, r) == (f + r, k),
    decreases r,
{
    if r > 0 {
        lemma_partial_pass(cmds, partner, f, k, (r - 1) as nat);
        assert(linked(cmds, partner, f, partner[f] as int));
        if r > 1 {
            assert(!cmds[f + r - 1].is_control());
        }
    }
}

proof fn lemma_full_pass(cmds: Seq<Command>, partner: Seq<usize>, f: int, k: int)
    requires
        jumps_ok(cmds, partner),
        0 <= f < cmds.len(),
        cmds[f] is For,
        0 <= k < cmds[f]->For_0,
    ensures
        spec_run(cmds, partner, f, k, (partner[f] - f + 1) as nat) == (f, k + 1),
{
    let l = partner[f] as int;
    assert(linked(cmds, partner, f, l));
    lemma_partial_pass(cmds, partner, f, k, (l - f) as nat);
}

proof fn lemma_passes(cmds: Seq<Command>, partner: Seq<usize>, f: int, k: int)
    requires
        jumps_ok(cmds, partner),
        0 <= f < cmds.len(),
        cmds[f] is For,
        0 <= k <= cmds[f]->For_0,
    ensures
        spec_run(cmds, partner, f, 0, (k * (partner[f] - f + 1)) as nat) == (f, k),
    decreases k,
{
    let p = partner[f] - f + 1;
    assert(linked(cmds, partner, f, partner[f] as int));
    if k > 0 {
        lemma_passes(cmds, partner, f, k - 1);
        assert(k * p == (k - 1) * p + p) by (nonlinear_arith);
        assert((k - 1) * p >= 0) by (nonlinear_arith)
            requires k >= 1, p >= 1;
        lemma_run_split(cmds, partner, f, 0, ((k - 1) * p) as nat, p as nat);
        assert((k * p) as nat == ((k - 1) * p) as nat + p as nat);
        lemma_full_pass(cmds, partner, f, k - 1);
    } else {
        assert(k * p == 0) by (nonlinear_arith)
            requires k == 0;
    }
}

/// A block `for:n ... loop` entered with the loop counter at zero, wherever
/// it stands in the program, runs its body exactly `n` times: after
/// `k * p + r` commands (`p` the block's length, `k < n`, `r < p`) it stands at
/// the block's `r`-th command in pass `k`, and after `n * p + 1` commands it
/// stands just past its `loop` with the loop counter back at zero.
pub proof fn lemma_block_runs_n_times(cmds: Seq<Command>, partner: Seq<usize>, f: int)
    requires
        jumps_ok(cmds, partner),
        0 <= f < cmds.len(),
        cmds[f] is For,
    ensures
        forall|k: int, r: int|
            0 <= k < cmds[f]->For_0 && 0 <= r < partner[f] - f + 1 ==> #[trigger] spec_run(
                cmds,
                partner,
                f,
                0,
                (k * (partner[f] - f + 1) + r) as nat,
            ) == (f + r, k),
        spec_run(
            cmds,
            partner,
            f,
            0,
            (cmds[f]->For_0 * (partner[f] - f + 1) + 1) as nat,
        ) == (partner[f] + 1, 0int),
{
    let n = cmds[f]->For_0 as int;
    let p = partner[f] - f + 1;
    assert(linked(cmds, partner, f, partner[f] as int));
    assert forall|k: int, r: int|
        0 <= k < n && 0 <= r < p implies #[trigger] spec_run(cmds, partner, f, 0, (k * p + r) as nat) == (f + r, k) by {
        lemma_passes(cmds, partner, f, k);
        assert(k * p >= 0) by (nonlinear_arith)
            requires k >= 0, p >= 1;
        lemma_run_split(cmds, partner, f, 0, (k * p) as nat, r as nat);
        lemma_partial_pass(cmds, partner, f, k, r as nat);
    }
    lemma_passes(cmds, partner, f, n);
    assert(n * p >= 0) by (nonlinear_arith)
        requires n >= 0, p >= 1;
    lemma_run_split(cmds, partner, f, 0, (n * p) as nat, 1);
}

} // verus!
