//! The execution engine: a register store, a program counter, a step budget,
//! and the dispatch loop, together with the machine's mathematical model.
//!
//! The engine halts normally when the counter leaves the program's bounds and
//! aborts silently when the step budget is consumed. Arithmetic on mismatched
//! or absent registers is a no-op; division or modulus by zero leaves the
//! destination untouched and counts one advisory diagnostic; an integer
//! result that the platform word cannot hold likewise leaves the store
//! unchanged.

use vstd::prelude::*;
use vstd::string::StringExecFns;
use crate::instr::{Value, ValueModel, Instruction, InstrModel, str_eq, parse_program, spec_parse_program};

verus! {

/// Hard cap on the number of instructions fetched in one run.
pub const FEE_PROGRAM_COUNTER: i32 = 1000;

/// One named register and its current value.
pub struct RegEntry {
    pub name: String,
    pub value: Value,
}

/// The registers a sequence of entries stands for, later entries winning.
pub open spec fn entries_map(s: Seq<RegEntry>) -> Map<Seq<char>, ValueModel>
    decreases s.len(),
{
    if s.len() == 0 {
        Map::empty()
    } else {
        entries_map(s.drop_last()).insert(s.last().name@, s.last().value@)
    }
}

/// No register name occurs twice.
pub open spec fn distinct_names(s: Seq<RegEntry>) -> bool {
    forall|i: int, j: int| 0 <= i < j < s.len() ==> s[i].name@ != s[j].name@
}

/// The register store: named, typed slots, created on first write,
/// overwritten on later writes, never deleted.
pub struct RegStore {
    entries: Vec<RegEntry>,
}

impl View for RegStore {
    type V = Map<Seq<char>, ValueModel>;

    closed spec fn view(&self) -> Map<Seq<char>, ValueModel> {
        entries_map(self.entries@)
    }
}

proof fn lemma_entries_map_domain(s: Seq<RegEntry>, n: Seq<char>)
    ensures
        entries_map(s).contains_key(n) <==> exists|i: int| 0 <= i < s.len() && s[i].name@ == n,
    decreases s.len(),
{
    if s.len() > 0 {
        lemma_entries_map_domain(s.drop_last(), n);
        if entries_map(s).contains_key(n) {
            if n == s.last().name@ {
                assert(s[s.len() - 1].name@ == n);
            } else {
                let i = choose|i: int| 0 <= i < s.len() - 1 && s.drop_last()[i].name@ == n;
                assert(s[i].name@ == n);
            }
        }
        if exists|i: int| 0 <= i < s.len() && s[i].name@ == n {
            let i = choose|i: int| 0 <= i < s.len() && s[i].name@ == n;
            if i < s.len() - 1 {
                assert(s.drop_last()[i].name@ == n);
            }
        }
    }
}

proof fn lemma_entries_map_at(s: Seq<RegEntry>, i: int)
    requires
        distinct_names(s),
        0 <= i < s.len(),
    ensures
        entries_map(s).contains_key(s[i].name@),
        entries_map(s)[s[i].name@] == s[i].value@,
    decreases s.len(),
{
    if i < s.len() - 1 {
        assert(distinct_names(s.drop_last()));
        assert(s.drop_last()[i] == s[i]);
        lemma_entries_map_at(s.drop_last(), i);
        assert(s[i].name@ != s.last().name@);
    }
}

proof fn lemma_entries_map_update(s: Seq<RegEntry>, i: int, e: RegEntry)
    requires
        distinct_names(s),
        0 <= i < s.len(),
        e.name@ == s[i].name@,
    ensures
        entries_map(s.update(i, e)) == entries_map(s).insert(e.name@, e.value@),
    decreases s.len(),
{
    if i == s.len() - 1 {
        assert(s.update(i, e).drop_last() =~= s.drop_last());
        assert(s.update(i, e).last() == e);
        assert(entries_map(s.drop_last()).insert(s.last().name@, s.last().value@).insert(
            e.name@,
            e.value@,
        ) =~= entries_map(s.drop_last()).insert(e.name@, e.value@));
    } else {
        assert(s.update(i, e).drop_last() =~= s.drop_last().update(i, e));
        assert(s.update(i, e).last() == s.last());
        assert(distinct_names(s.drop_last()));
        assert(s.drop_last()[i] == s[i]);
        lemma_entries_map_update(s.drop_last(), i, e);
        assert(s.last().name@ != e.name@);
        assert(entries_map(s.drop_last()).insert(e.name@, e.value@).insert(
            s.last().name@,
            s.last().value@,
        ) =~= entries_map(s.drop_last()).insert(s.last().name@, s.last().value@).insert(
            e.name@,
            e.value@,
        ));
    }
}

impl RegStore {
    /// Names never repeat among the entries.
    pub closed spec fn wf(&self) -> bool {
        distinct_names(self.entries@)
    }

    /// An empty store.
    pub fn new() -> (r: RegStore)
        ensures
            r.wf(),
            r@ == Map::<Seq<char>, ValueModel>::empty(),
    {
        RegStore { entries: Vec::new() }
    }

    /// A copy of the value of register `name`, if the register exists.
    pub fn read(&self, name: &str) -> (r: Option<Value>)
        requires
            self.wf(),
        ensures
            match r {
                Some(v) => self@.contains_key(name@) && v@ == self@[name@],
                None => !self@.contains_key(name@),
            },
    {
        let mut i: usize = 0;
        while i < self.entries.len()
            invariant
                i <= self.entries@.len(),
                self.wf(),
                forall|k: int| 0 <= k < i ==> self.entries@[k].name@ != name@,
            decreases self.entries@.len() - i,
        {
            if str_eq(self.entries[i].name.as_str(), name) {
                proof {
                    lemma_entries_map_at(self.entries@, i as int);
                }
                return Some(self.entries[i].value.duplicate());
            }
            i = i + 1;
        }
        proof {
            lemma_entries_map_domain(self.entries@, name@);
        }
        None
    }

    /// Stores `value` into register `name`, creating the register on its
    /// first write and overwriting it on any later one.
    pub fn write(&mut self, name: &str, value: Value)
        requires
            old(self).wf(),
        ensures
            final(self).wf(),
            final(self)@ == old(self)@.insert(name@, value@),
    {
        let mut i: usize = 0;
        while i < self.entries.len()
            invariant
                i <= self.entries@.len(),
                self.wf(),
                self.entries@ == old(self).entries@,
                forall|k: int| 0 <= k < i ==> self.entries@[k].name@ != name@,
            decreases self.entries@.len() - i,
        {
            if str_eq(self.entries[i].name.as_str(), name) {
                let old_e = self.entries.remove(i);
                let new_e = RegEntry { name: old_e.name, value };
                let ghost ge = new_e;
                self.entries.insert(i, new_e);
                proof {
                    assert(self.entries@ =~= old(self).entries@.update(i as int, ge));
                    lemma_entries_map_update(old(self).entries@, i as int, ge);
                    assert(distinct_names(self.entries@));
                }
                return;
            }
            i = i + 1;
        }
        let ghost olds = self.entries@;
        let new_e = RegEntry { name: name.to_owned(), value };
        let ghost ge = new_e;
        self.entries.push(new_e);
        proof {
            assert(self.entries@.drop_last() =~= olds);
            assert(self.entries@.last() == ge);
            assert(distinct_names(self.entries@));
        }
    }

    /// The entries, one per register.
    pub fn entries(&self) -> (r: &Vec<RegEntry>)
        ensures
            entries_map(r@) == self@,
            distinct_names(r@) == self.wf(),
    {
        &self.entries
    }

    /// How many registers exist.
    pub closed spec fn spec_len(&self) -> int {
        self.entries@.len() as int
    }

    /// How many registers exist.
    pub fn len(&self) -> (n: usize)
        ensures
            n as int == self.spec_len(),
    {
        self.entries.len()
    }
}

/// Mathematical model of the whole machine: the registers, the program
/// counter, the count of instructions fetched so far, and the count of
/// division-by-zero diagnostics emitted so far.
pub struct MachineModel {
    pub regs: Map<Seq<char>, ValueModel>,
    pub pc: int,
    pub steps: int,
    pub diags: int,
}

/// A value the platform-width signed word can hold.
pub open spec fn fits_isize(v: int) -> bool {
    isize::MIN as int <= v <= isize::MAX as int
}

/// Integer division truncated toward zero (meaningful when `d != 0`).
pub open spec fn trunc_div(x: int, d: int) -> int {
    if x == 0 {
        0
    } else if x > 0 && d > 0 {
        x / d
    } else if x < 0 && d < 0 {
        (x * -1) / (d * -1)
    } else if x < 0 {
        ((x * -1) / d) * -1
    } else {
        (x / (d * -1)) * -1
    }
}

/// Remainder of truncated division, carrying the dividend's sign
/// (meaningful when `d != 0`).
pub open spec fn trunc_rem(x: int, d: int) -> int {
    if x == 0 {
        0
    } else if x > 0 && d > 0 {
        x % d
    } else if x < 0 && d < 0 {
        ((x * -1) % (d * -1)) * -1
    } else if x < 0 {
        ((x * -1) % d) * -1
    } else {
        x % (d * -1)
    }
}

/// Both registers exist and hold equal values of one variant.
pub open spec fn regs_equal(regs: Map<Seq<char>, ValueModel>, a: Seq<char>, b: Seq<char>) -> bool {
    regs.contains_key(a) && regs.contains_key(b) && match (regs[a], regs[b]) {
        (ValueModel::Int(x), ValueModel::Int(y)) => x == y,
        (ValueModel::Str(x), ValueModel::Str(y)) => x == y,
        _ => false,
    }
}

/// Both registers exist and hold unequal values of one variant. A type
/// mismatch or an absent register satisfies neither this nor `regs_equal`.
pub open spec fn regs_unequal(regs: Map<Seq<char>, ValueModel>, a: Seq<char>, b: Seq<char>) -> bool {
    regs.contains_key(a) && regs.contains_key(b) && match (regs[a], regs[b]) {
        (ValueModel::Int(x), ValueModel::Int(y)) => x != y,
        (ValueModel::Str(x), ValueModel::Str(y)) => x != y,
        _ => false,
    }
}

/// Addition: two integers sum when the sum is representable, two strings
/// concatenate (destination first); every other combination is a no-op.
pub open spec fn add_regs(regs: Map<Seq<char>, ValueModel>, d: Seq<char>, s: Seq<char>) -> Map<
    Seq<char>,
    ValueModel,
> {
    if regs.contains_key(d) && regs.contains_key(s) {
        match (regs[d], regs[s]) {
            (ValueModel::Int(a), ValueModel::Int(b)) => if fits_isize(a + b) {
                regs.insert(d, ValueModel::Int(a + b))
            } else {
                regs
            },
            (ValueModel::Str(a), ValueModel::Str(b)) => regs.insert(d, ValueModel::Str(a + b)),
            _ => regs,
        }
    } else {
        regs
    }
}

/// Subtraction: integers only; anything else is a no-op.
pub open spec fn sub_regs(regs: Map<Seq<char>, ValueModel>, d: Seq<char>, s: Seq<char>) -> Map<
    Seq<char>,
    ValueModel,
> {
    if regs.contains_key(d) && regs.contains_key(s) {
        match (regs[d], regs[s]) {
            (ValueModel::Int(a), ValueModel::Int(b)) => if fits_isize(a - b) {
                regs.insert(d, ValueModel::Int(a - b))
            } else {
                regs
            },
            _ => regs,
        }
    } else {
        regs
    }
}

/// Multiplication: integers only; anything else is a no-op.
pub open spec fn mul_regs(regs: Map<Seq<char>, ValueModel>, d: Seq<char>, s: Seq<char>) -> Map<
    Seq<char>,
    ValueModel,
> {
    if regs.contains_key(d) && regs.contains_key(s) {
        match (regs[d], regs[s]) {
            (ValueModel::Int(a), ValueModel::Int(b)) => if fits_isize(a * b) {
                regs.insert(d, ValueModel::Int(a * b))
            } else {
                regs
            },
            _ => regs,
        }
    } else {
        regs
    }
}

/// Division: integers only; a zero divisor mutates nothing and counts one
/// diagnostic (the second component); an unrepresentable quotient is a
/// silent no-op.
pub open spec fn div_regs(regs: Map<Seq<char>, ValueModel>, d: Seq<char>, s: Seq<char>) -> (
    Map<Seq<char>, ValueModel>,
    bool,
) {
    if regs.contains_key(d) && regs.contains_key(s) {
        match (regs[d], regs[s]) {
            (ValueModel::Int(a), ValueModel::Int(b)) => if b == 0 {
                (regs, true)
            } else if fits_isize(trunc_div(a, b)) {
                (regs.insert(d, ValueModel::Int(trunc_div(a, b))), false)
            } else {
                (regs, false)
            },
            _ => (regs, false),
        }
    } else {
        (regs, false)
    }
}

/// Modulus: the zero-divisor policy of `div_regs`; the one dividend and
/// divisor pair whose division overflows is likewise a silent no-op.
pub open spec fn mod_regs(regs: Map<Seq<char>, ValueModel>, d: Seq<char>, s: Seq<char>) -> (
    Map<Seq<char>, ValueModel>,
    bool,
) {
    if regs.contains_key(d) && regs.contains_key(s) {
        match (regs[d], regs[s]) {
            (ValueModel::Int(a), ValueModel::Int(b)) => if b == 0 {
                (regs, true)
            } else if a == isize::MIN as int && b == -1 {
                (regs, false)
            } else {
                (regs.insert(d, ValueModel::Int(trunc_rem(a, b))), false)
            },
            _ => (regs, false),
        }
    } else {
        (regs, false)
    }
}

/// The effect of one instruction on the machine. `Jmp` assigns its target to
/// the counter absolutely; `If` and `Else` add their offset to it; every
/// other instruction advances it by one.
pub open spec fn step_model(ins: InstrModel, m: MachineModel) -> MachineModel {
    match ins {
        InstrModel::Mov(r, v) => MachineModel {
            regs: m.regs.insert(r, ValueModel::Int(v)),
            pc: m.pc + 1,
            ..m
        },
        InstrModel::MovStr(r, s) => MachineModel {
            regs: m.regs.insert(r, ValueModel::Str(s)),
            pc: m.pc + 1,
            ..m
        },
        InstrModel::Add(d, s) => MachineModel { regs: add_regs(m.regs, d, s), pc: m.pc + 1, ..m },
        InstrModel::Sub(d, s) => MachineModel { regs: sub_regs(m.regs, d, s), pc: m.pc + 1, ..m },
        InstrModel::Mul(d, s) => MachineModel { regs: mul_regs(m.regs, d, s), pc: m.pc + 1, ..m },
        InstrModel::Div(d, s) => MachineModel {
            regs: div_regs(m.regs, d, s).0,
            pc: m.pc + 1,
            diags: m.diags + if div_regs(m.regs, d, s).1 {
                1int
            } else {
                0int
            },
            ..m
        },
        InstrModel::Mod(d, s) => MachineModel {
            regs: mod_regs(m.regs, d, s).0,
            pc: m.pc + 1,
            diags: m.diags + if mod_regs(m.regs, d, s).1 {
                1int
            } else {
                0int
            },
            ..m
        },
        InstrModel::Jmp(t) => MachineModel { pc: t, ..m },
        InstrModel::If(a, _c, b, off) => MachineModel {
            pc: if regs_equal(m.regs, a, b) {
                m.pc + off
            } else {
                m.pc + 1
            },
            ..m
        },
        InstrModel::Else(a, b, off) => MachineModel {
            pc: if regs_unequal(m.regs, a, b) {
                m.pc + off
            } else {
                m.pc + 1
            },
            ..m
        },
    }
}

/// No instruction can be fetched: the counter is out of bounds or the step
/// budget is consumed.
pub open spec fn halted(prog: Seq<InstrModel>, m: MachineModel) -> bool {
    !(0 <= m.pc < prog.len()) || m.steps >= FEE_PROGRAM_COUNTER as int
}

/// Runs the machine to a halt: fetch while the counter is in bounds, charge
/// the step, and stop short of executing the fetch that meets the budget.
pub open spec fn run_model(prog: Seq<InstrModel>, m: MachineModel) -> MachineModel
    decreases FEE_PROGRAM_COUNTER as int - m.steps,
{
    if halted(prog, m) {
        m
    } else {
        let m1 = MachineModel { steps: m.steps + 1, ..m };
        if m1.steps >= FEE_PROGRAM_COUNTER as int {
            m1
        } else {
            run_model(prog, step_model(prog[m.pc], m1))
        }
    }
}

/// The step budget is a hard bound: a run never loses steps already taken
/// and never exceeds the budget.
pub proof fn lemma_run_budget(prog: Seq<InstrModel>, m: MachineModel)
    requires
        m.steps <= FEE_PROGRAM_COUNTER as int,
    ensures
        m.steps <= run_model(prog, m).steps <= FEE_PROGRAM_COUNTER as int,
    decreases FEE_PROGRAM_COUNTER as int - m.steps,
{
    if !halted(prog, m) {
        let m1 = MachineModel { steps: m.steps + 1, ..m };
        if m1.steps < FEE_PROGRAM_COUNTER as int {
            lemma_run_budget(prog, step_model(prog[m.pc], m1));
        }
    }
}

/// Every run ends in a halt state: the counter out of bounds or the budget
/// consumed; in particular a program that always jumps back into itself is
/// stopped by the budget alone.
pub proof fn lemma_run_halts(prog: Seq<InstrModel>, m: MachineModel)
    requires
        m.steps <= FEE_PROGRAM_COUNTER as int,
    ensures
        halted(prog, run_model(prog, m)),
    decreases FEE_PROGRAM_COUNTER as int - m.steps,
{
    if !halted(prog, m) {
        let m1 = MachineModel { steps: m.steps + 1, ..m };
        if m1.steps < FEE_PROGRAM_COUNTER as int {
            lemma_run_halts(prog, step_model(prog[m.pc], m1));
        }
    }
}

/// The counter stays within this window while at most `steps` instructions
/// have run: each step moves it by at most one platform word.
pub open spec fn pc_in_window(pc: int, steps: int) -> bool {
    -((steps + 1) * 0x1_0000_0000_0000_0000) <= pc <= (steps + 1) * 0x1_0000_0000_0000_0000
}

/// The virtual machine: a program, a counter, a step budget, a register
/// store, and a diagnostics count.
pub struct Assembler {
    registers: RegStore,
    program_counter: i128,
    total_program_counter: i32,
    diagnostics: u32,
    instructions: Vec<Instruction>,
}

impl Assembler {
    /// The installed program, as its model.
    pub closed spec fn prog(&self) -> Seq<InstrModel> {
        self.instructions.deep_view()
    }

    /// The machine state, as its model.
    pub closed spec fn machine(&self) -> MachineModel {
        MachineModel {
            regs: self.registers@,
            pc: self.program_counter as int,
            steps: self.total_program_counter as int,
            diags: self.diagnostics as int,
        }
    }

    /// Register names are unique, the step count is within the budget,
    /// diagnostics never outnumber steps, and the counter is within the
    /// window the steps taken so far allow.
    pub closed spec fn wf(&self) -> bool {
        &&& self.registers.wf()
        &&& 0 <= self.total_program_counter <= FEE_PROGRAM_COUNTER
        &&& self.diagnostics as int <= self.total_program_counter as int
        &&& pc_in_window(self.program_counter as int, self.total_program_counter as int)
    }

    /// A fresh machine: no program, no registers, counters at zero.
    pub fn new() -> (r: Assembler)
        ensures
            r.wf(),
            r.machine() == (MachineModel {
                regs: Map::<Seq<char>, ValueModel>::empty(),
                pc: 0,
                steps: 0,
                diags: 0,
            }),
            r.prog() == Seq::<InstrModel>::empty(),
    {
        let r = Assembler {
            registers: RegStore::new(),
            total_program_counter: 0,
            program_counter: 0,
            diagnostics: 0,
            instructions: Vec::new(),
        };
        proof {
            assert(r.prog() =~= Seq::<InstrModel>::empty());
        }
        r
    }

    /// Parses `input` and installs its instruction sequence, exactly as
    /// `spec_parse_program` describes; registers and counters are untouched.
    pub fn parse_instructions(&mut self, input: &str)
        ensures
            final(self).prog() == spec_parse_program(input@),
            final(self).machine() == old(self).machine(),
            old(self).wf() ==> final(self).wf(),
    {
        self.instructions = parse_program(input);
    }

    /// Runs the dispatch loop from the current state to a halt, as
    /// `run_model` describes.
    pub fn execute(&mut self)
        requires
            old(self).wf(),
        ensures
            final(self).wf(),
            final(self).prog() == old(self).prog(),
            final(self).machine() == run_model(old(self).prog(), old(self).machine()),
    {
        loop
            invariant
                self.wf(),
                self.prog() == old(self).prog(),
                self.instructions == old(self).instructions,
                run_model(self.prog(), self.machine()) == run_model(
                    old(self).prog(),
                    old(self).machine(),
                ),
            ensures
                halted(self.prog(), self.machine()),
            decreases FEE_PROGRAM_COUNTER as int - self.total_program_counter as int,
        {
            let pc = self.program_counter;
            if pc < 0 || pc >= self.instructions.len() as i128 {
                return ;
            }
            if self.total_program_counter >= FEE_PROGRAM_COUNTER {
                return ;
            }
            let ghost m0 = self.machine();
            self.total_program_counter = self.total_program_counter + 1;
            let ghost m1 = self.machine();
            proof {
                assert(m1 == (MachineModel { steps: m0.steps + 1, ..m0 }));
            }
            if self.total_program_counter >= FEE_PROGRAM_COUNTER {
                return ;
            }
            let idx = pc as usize;
            let ghost ins_model = self.instructions@[idx as int]@;
            proof {
                assert(self.prog()[idx as int] == ins_model);
            }
            match &self.instructions[idx] {
                Instruction::Mov(reg, val) => {
                    self.registers.write(reg.as_str(), Value::Int(*val));
                    self.program_counter = pc + 1;
                },
                Instruction::MovStr(reg, val) => {
                    self.registers.write(reg.as_str(), Value::Str(val.clone()));
                    self.program_counter = pc + 1;
                },
                Instruction::Add(dest, src) => {
                    let sv = self.registers.read(src.as_str());
                    let dv = self.registers.read(dest.as_str());
                    match (sv, dv) {
                        (Some(Value::Int(s)), Some(Value::Int(d))) => {
                            match d.checked_add(s) {
                                Some(x) => {
                                    self.registers.write(dest.as_str(), Value::Int(x));
                                },
                                None => {
                                },
                            }
                        },
                        (Some(Value::Str(s)), Some(Value::Str(d))) => {
                            let cat = d.concat(s.as_str());
                            self.registers.write(dest.as_str(), Value::Str(cat));
                        },
                        _ => {
                        },
                    }
                    self.program_counter = pc + 1;
                },
                Instruction::Sub(dest, src) => {
                    let sv = self.registers.read(src.as_str());
                    let dv = self.registers.read(dest.as_str());
                    match (sv, dv) {
                        (Some(Value::Int(s)), Some(Value::Int(d))) => {
                            match d.checked_sub(s) {
                                Some(x) => {
                                    self.registers.write(dest.as_str(), Value::Int(x));
                                },
                                None => {
                                },
                            }
                        },
                        _ => {
                        },
                    }
                    self.program_counter = pc + 1;
                },
                Instruction::Mul(dest, src) => {
                    let sv = self.registers.read(src.as_str());
                    let dv = self.registers.read(dest.as_str());
                    match (sv, dv) {
                        (Some(Value::Int(s)), Some(Value::Int(d))) => {
                            match d.checked_mul(s) {
                                Some(x) => {
                                    self.registers.write(dest.as_str(), Value::Int(x));
                                },
                                None => {
                                },
                            }
                        },
                        _ => {
                        },
                    }
                    self.program_counter = pc + 1;
                },
                Instruction::Div(dest, src) => {
                    let sv = self.registers.read(src.as_str());
                    let dv = self.registers.read(dest.as_str());
                    match (sv, dv) {
                        (Some(Value::Int(s)), Some(Value::Int(d))) => {
                            if s != 0 {
                                match d.checked_div(s) {
                                    Some(x) => {
                                        self.registers.write(dest.as_str(), Value::Int(x));
                                    },
                                    None => {
                                    },
                                }
                            } else {
                                self.diagnostics = self.diagnostics + 1;
                            }
                        },
                        _ => {
                        },
                    }
                    self.program_counter = pc + 1;
                },
                Instruction::Mod(dest, src) => {
                    let sv = self.registers.read(src.as_str());
                    let dv = self.registers.read(dest.as_str());
                    match (sv, dv) {
                        (Some(Value::Int(s)), Some(Value::Int(d))) => {
                            if s != 0 {
                                match d.checked_rem(s) {
                                    Some(x) => {
                                        self.registers.write(dest.as_str(), Value::Int(x));
                                    },
                                    None => {
                                    },
                                }
                            } else {
                                self.diagnostics = self.diagnostics + 1;
                            }
                        },
                        _ => {
                        },
                    }
                    self.program_counter = pc + 1;
                },
                Instruction::Jmp(target) => {
                    self.program_counter = *target as i128;
                },
                Instruction::If(reg1, _rule, reg2, offset) => {
                    let v1 = self.registers.read(reg1.as_str());
                    let v2 = self.registers.read(reg2.as_str());
                    let hit = match (v1, v2) {
                        (Some(Value::Int(a)), Some(Value::Int(b))) => a == b,
                        (Some(Value::Str(a)), Some(Value::Str(b))) => a == b,
                        _ => false,
                    };
                    if hit {
                        self.program_counter = pc + (*offset as i128);
                    } else {
                        self.program_counter = pc + 1;
                    }
                },
                Instruction::Else(reg1, reg2, offset) => {
                    let v1 = self.registers.read(reg1.as_str());
                    let v2 = self.registers.read(reg2.as_str());
                    let hit = match (v1, v2) {
                        (Some(Value::Int(a)), Some(Value::Int(b))) => a != b,
                        (Some(Value::Str(a)), Some(Value::Str(b))) => a != b,
                        _ => false,
                    };
                    if hit {
                        self.program_counter = pc + (*offset as i128);
                    } else {
                        self.program_counter = pc + 1;
                    }
                },
            }
            proof {
                assert(self.machine() == step_model(ins_model, m1));
            }
        }
    }

    /// The final register store.
    pub fn registers(&self) -> (r: &RegStore)
        ensures
            r@ == self.machine().regs,
            self.wf() ==> r.wf(),
    {
        &self.registers
    }

    /// How many instructions were fetched during the run so far.
    pub fn steps_taken(&self) -> (n: i32)
        ensures
            n as int == self.machine().steps,
    {
        self.total_program_counter
    }

    /// How many division-by-zero diagnostics were emitted so far.
    pub fn diagnostics_count(&self) -> (n: u32)
        ensures
            n as int == self.machine().diags,
    {
        self.diagnostics
    }

    /// The program counter.
    pub fn counter(&self) -> (r: i128)
        ensures
            r as int == self.machine().pc,
    {
        self.program_counter
    }

    /// The installed instruction sequence.
    pub fn instructions(&self) -> (r: &Vec<Instruction>)
        ensures
            r.deep_view() == self.prog(),
    {
        &self.instructions
    }
}

/// The external metering hook, called once per surviving register when a
/// finished run is reported. Its behaviour is outside this machine's scope.
pub trait SpacePool {
    fn get_space_value(&mut self);
}

/// The whole invocation: parse `program`, run it from a fresh machine,
/// report each final register to the metering pool (one call per register),
/// and hand back the fixed completion token.
pub fn message<P: SpacePool>(pool: &mut P, program: &str) -> (r: (String, Assembler))
    ensures
        r.0@ == "vm"@,
        r.1.wf(),
        r.1.prog() == spec_parse_program(program@),
        r.1.machine() == run_model(
            spec_parse_program(program@),
            MachineModel { regs: Map::empty(), pc: 0, steps: 0, diags: 0 },
        ),
{
    let mut assembler = Assembler::new();
    assembler.parse_instructions(program);
    assembler.execute();
    let n = assembler.registers().len();
    let mut i: usize = 0;
    while i < n
        invariant
            i <= n,
        decreases n - i,
    {
        pool.get_space_value();
        i = i + 1;
    }
    (String::from_str("vm"), assembler)
}

} // verus!
