use vstd::prelude::*;

use crate::string_internal::{lowering, Instruction, Operand, StringMethod};

verus! {

// What a lowering computes, on a model of memory: memory is a list of
// blocks, each a list of cells; a pointer names a block and a position in it;
// each value a parameter points to (a character, a number) occupies one
// cell, and a C string is the cells up to its first 0. A cell holds a
// 64-bit value, read as a number from 0 to 2^64 - 1, and an addition wraps
// around at 2^64, as the emitted 64-bit `add` does. A fresh block holds 0s. Reading or writing outside a
// block, or a string with no terminator in its block, is a fault: the run has
// no result.

/// `v` wrapped around to 64 bits.
pub open spec fn wrap(v: int) -> int {
    v % 0x1_0000_0000_0000_0000
}

/// A value of the model.
pub enum Val {
    Int(int),
    Ptr(int, int),
    Nothing,
}

/// Memory, and the values that the instructions run so far have made.
pub struct Machine {
    pub mem: Seq<Seq<int>>,
    pub vals: Seq<Val>,
}

/// The length of the C string that starts at position `o` of `blk`, where
/// its terminator is in the block.
pub open spec fn strlen_from(blk: Seq<int>, o: int) -> Option<nat>
    decreases blk.len() - o,
{
    if o < 0 || o >= blk.len() {
        None
    } else if blk[o] == 0 {
        Some(0)
    } else {
        match strlen_from(blk, o + 1) {
            Some(n) => Some(n + 1),
            None => None,
        }
    }
}

/// The length of the C string that `p` points to in `mem`.
pub open spec fn strlen_at(mem: Seq<Seq<int>>, p: Val) -> Option<nat> {
    match p {
        Val::Ptr(b, o) => if 0 <= b < mem.len() {
            strlen_from(mem[b], o)
        } else {
            None
        },
        _ => None,
    }
}

/// `p` points to a cell of `mem`.
pub open spec fn cell_at(mem: Seq<Seq<int>>, p: Val) -> bool {
    match p {
        Val::Ptr(b, o) => 0 <= b < mem.len() && 0 <= o < mem[b].len(),
        _ => false,
    }
}

/// The cell that `p` points to.
pub open spec fn read(mem: Seq<Seq<int>>, p: Val) -> int {
    match p {
        Val::Ptr(b, o) => mem[b][o],
        _ => 0,
    }
}

/// `mem` with `cells` written from where `p` points on, where they fit in its
/// block.
pub open spec fn write(mem: Seq<Seq<int>>, p: Val, cells: Seq<int>) -> Option<Seq<Seq<int>>> {
    match p {
        Val::Ptr(b, o) => if 0 <= b < mem.len() && 0 <= o && o + cells.len() <= mem[b].len() {
            Some(mem.update(b, mem[b].take(o) + cells + mem[b].skip(o + cells.len())))
        } else {
            None
        },
        _ => None,
    }
}

/// The C string that `p` points to, terminator included.
pub open spec fn string_cells(mem: Seq<Seq<int>>, p: Val, n: nat) -> Seq<int> {
    match p {
        Val::Ptr(b, o) => mem[b].subrange(o, o + n).push(0),
        _ => Seq::empty(),
    }
}

/// The value that an operand names.
pub open spec fn operand_value(params: Seq<Val>, m: Machine, o: Operand) -> Val {
    match o {
        Operand::Param(j) => if j < params.len() {
            params[j as int]
        } else {
            Val::Nothing
        },
        Operand::Value(j) => if j < m.vals.len() {
            m.vals[j as int]
        } else {
            Val::Nothing
        },
        Operand::Int(n) => Val::Int(n as int),
        Operand::ZeroByte => Val::Int(0),
    }
}

/// A fresh block of `n` cells.
pub open spec fn allocate(mem: Seq<Seq<int>>, n: int) -> (Seq<Seq<int>>, Val) {
    (mem.push(Seq::new(n as nat, |i: int| 0)), Val::Ptr(mem.len() as int, 0))
}

/// What one instruction does: the memory after it and the value it makes,
/// or `None` where it faults.
#[verifier::opaque]
pub open spec fn step(params: Seq<Val>, m: Machine, i: Instruction) -> Option<(Seq<Seq<int>>, Val)> {
    let mem = m.mem;
    let v = |o: Operand| operand_value(params, m, o);
    match i {
        Instruction::Strlen(a) => match strlen_at(mem, v(a)) {
            Some(n) => Some((mem, Val::Int(n as int))),
            None => None,
        },
        Instruction::Add(a, b) => match (v(a), v(b)) {
            (Val::Int(x), Val::Int(y)) => Some((mem, Val::Int(wrap(x + y)))),
            _ => None,
        },
        Instruction::Malloc(a) => match v(a) {
            Val::Int(n) => if n >= 0 {
                Some(allocate(mem, n))
            } else {
                None
            },
            _ => None,
        },
        Instruction::AllocateLike(a) => match v(a) {
            Val::Ptr(_, _) => Some(allocate(mem, 1)),
            _ => None,
        },
        Instruction::CastToIntPointer(a) => match v(a) {
            Val::Ptr(b, o) => Some((mem, Val::Ptr(b, o))),
            _ => None,
        },
        Instruction::Load(a) => if cell_at(mem, v(a)) {
            Some((mem, Val::Int(read(mem, v(a)))))
        } else {
            None
        },
        Instruction::Store(a, b) => match v(b) {
            Val::Int(x) => match write(mem, v(a), seq![x]) {
                Some(mem2) => Some((mem2, Val::Nothing)),
                None => None,
            },
            _ => None,
        },
        Instruction::Strcpy(a, b) => match strlen_at(mem, v(b)) {
            Some(n) => match write(mem, v(a), string_cells(mem, v(b), n)) {
                Some(mem2) => Some((mem2, v(a))),
                None => None,
            },
            None => None,
        },
        Instruction::Strcat(a, b) => match (strlen_at(mem, v(a)), strlen_at(mem, v(b))) {
            (Some(k), Some(n)) => match v(a) {
                Val::Ptr(blk, o) => match write(
                    mem,
                    Val::Ptr(blk, o + k),
                    string_cells(mem, v(b), n),
                ) {
                    Some(mem2) => Some((mem2, v(a))),
                    None => None,
                },
                _ => None,
            },
            _ => None,
        },
        Instruction::Offset(a, b) => match (v(a), v(b)) {
            (Val::Ptr(blk, o), Val::Int(k)) => Some((mem, Val::Ptr(blk, o + k))),
            _ => None,
        },
        Instruction::Return(a) => Some((mem, v(a))),
    }
}

/// The machine after the first `n` instructions of `plan`, or `None` where
/// one of them faults.
pub open spec fn run(plan: Seq<Instruction>, params: Seq<Val>, mem: Seq<Seq<int>>, n: int) -> Option<
    Machine,
>
    decreases n,
{
    if n <= 0 {
        Some(Machine { mem, vals: Seq::empty() })
    } else {
        match run(plan, params, mem, n - 1) {
            Some(m) => match step(params, m, plan[n - 1]) {
                Some((mem2, v)) => Some(Machine { mem: mem2, vals: m.vals.push(v) }),
                None => None,
            },
            None => None,
        }
    }
}

/// What running method `m` on `params` in `mem` gives: the memory at the end
/// and the value returned, or `None` where the run faults.
pub open spec fn outcome(m: StringMethod, params: Seq<Val>, mem: Seq<Seq<int>>) -> Option<
    (Seq<Seq<int>>, Val),
> {
    let plan = lowering(m);
    match run(plan, params, mem, plan.len() as int) {
        Some(machine) => Some((machine.mem, machine.vals.last())),
        None => None,
    }
}

/// One more instruction of a run.
proof fn lemma_run_step(
    plan: Seq<Instruction>,
    params: Seq<Val>,
    mem: Seq<Seq<int>>,
    k: int,
    m: Machine,
    mem2: Seq<Seq<int>>,
    v: Val,
)
    requires
        0 <= k,
        run(plan, params, mem, k) == Some(m),
        step(params, m, plan[k]) == Some((mem2, v)),
    ensures
        run(plan, params, mem, k + 1) == Some(Machine { mem: mem2, vals: m.vals.push(v) }),
{
}

/// A faulting instruction ends the run without a result.
proof fn lemma_run_fault(plan: Seq<Instruction>, params: Seq<Val>, mem: Seq<Seq<int>>, k: int, m: Machine)
    requires
        0 <= k,
        run(plan, params, mem, k) == Some(m),
        step(params, m, plan[k]) is None,
    ensures
        forall|j: int| k < j ==> #[trigger] run(plan, params, mem, j) is None,
{
    assert forall|j: int| k < j implies #[trigger] run(plan, params, mem, j) is None by {
        lemma_run_fault_from(plan, params, mem, k, j);
    }
}

proof fn lemma_run_fault_from(plan: Seq<Instruction>, params: Seq<Val>, mem: Seq<Seq<int>>, k: int, j: int)
    requires
        0 <= k < j,
        run(plan, params, mem, k) is Some,
        step(params, run(plan, params, mem, k).unwrap(), plan[k]) is None,
    ensures
        run(plan, params, mem, j) is None,
    decreases j,
{
    if j > k + 1 {
        lemma_run_fault_from(plan, params, mem, k, j - 1);
    }
}

/// `string::Cast` returns its parameter and leaves memory as it was.
pub proof fn lemma_cast_returns_its_parameter(v: Val, mem: Seq<Seq<int>>)
    ensures
        outcome(StringMethod::Cast, seq![v], mem) == Some((mem, v)),
{
    reveal_with_fuel(run, 2);
    reveal(step);
}

/// `char + u64` returns a pointer to a fresh cell that holds the character
/// moved on by the number, wrapped around at 2^64, and changes nothing else.
pub proof fn lemma_char_plus_number(c: Val, n: Val, mem: Seq<Seq<int>>)
    requires
        cell_at(mem, c),
        cell_at(mem, n),
    ensures
        outcome(StringMethod::AddCharNumber, seq![c, n], mem) == Some(
            (mem.push(seq![wrap(read(mem, c) + read(mem, n))]), Val::Ptr(mem.len() as int, 0)),
        ),
{
    let plan = lowering(StringMethod::AddCharNumber);
    let params = seq![c, n];
    let fresh = Val::Ptr(mem.len() as int, 0);
    let mem1 = mem.push(Seq::new(1, |i: int| 0));
    let x = read(mem, c);
    let y = read(mem, n);
    let z = wrap(x + y);
    let mem2 = mem.push(seq![z]);
    let m0 = Machine { mem, vals: Seq::empty() };
    let m1 = Machine { mem: mem1, vals: seq![fresh] };
    let m2 = Machine { mem: mem1, vals: seq![fresh, c] };
    let m3 = Machine { mem: mem1, vals: seq![fresh, c, Val::Int(x)] };
    let m4 = Machine { mem: mem1, vals: seq![fresh, c, Val::Int(x), Val::Int(y)] };
    let m5 = Machine { mem: mem1, vals: m4.vals.push(Val::Int(z)) };
    let m6 = Machine { mem: mem2, vals: m5.vals.push(Val::Nothing) };
    assert(run(plan, params, mem, 0) == Some(m0));
    assert(step(params, m0, plan[0]) == Some((mem1, fresh))) by {
        reveal(step);
    }
    lemma_run_step(plan, params, mem, 0, m0, mem1, fresh);
    assert(m0.vals.push(fresh) =~= m1.vals);
    assert(step(params, m1, plan[1]) == Some((mem1, c))) by {
        reveal(step);
    }
    lemma_run_step(plan, params, mem, 1, m1, mem1, c);
    assert(m1.vals.push(c) =~= m2.vals);
    assert(step(params, m2, plan[2]) == Some((mem1, Val::Int(x)))) by {
        reveal(step);
        assert(cell_at(mem1, c) && read(mem1, c) == x);
    }
    lemma_run_step(plan, params, mem, 2, m2, mem1, Val::Int(x));
    assert(m2.vals.push(Val::Int(x)) =~= m3.vals);
    assert(step(params, m3, plan[3]) == Some((mem1, Val::Int(y)))) by {
        reveal(step);
        assert(cell_at(mem1, n) && read(mem1, n) == y);
    }
    lemma_run_step(plan, params, mem, 3, m3, mem1, Val::Int(y));
    assert(m3.vals.push(Val::Int(y)) =~= m4.vals);
    assert(step(params, m4, plan[4]) == Some((mem1, Val::Int(z)))) by {
        reveal(step);
    }
    lemma_run_step(plan, params, mem, 4, m4, mem1, Val::Int(z));
    assert(step(params, m5, plan[5]) == Some((mem2, Val::Nothing))) by {
        reveal(step);
        assert(mem1[mem.len() as int].len() == 1);
        assert(mem1.update(
            mem.len() as int,
            mem1[mem.len() as int].take(0) + seq![z] + mem1[mem.len() as int].skip(1),
        ) =~= mem2);
    }
    lemma_run_step(plan, params, mem, 5, m5, mem2, Val::Nothing);
    assert(step(params, m6, plan[6]) == Some((mem2, fresh))) by {
        reveal(step);
    }
    lemma_run_step(plan, params, mem, 6, m6, mem2, fresh);
}

/// A string length found is the position of the first 0 from the start.
proof fn lemma_strlen_found(blk: Seq<int>, o: int)
    requires
        strlen_from(blk, o) is Some,
    ensures
        0 <= o,
        o + strlen_from(blk, o).unwrap() < blk.len(),
        blk[o + strlen_from(blk, o).unwrap()] == 0,
        forall|i: int| o <= i < o + strlen_from(blk, o).unwrap() ==> blk[i] != 0,
    decreases blk.len() - o,
{
    if blk[o] != 0 {
        lemma_strlen_found(blk, o + 1);
    }
}

/// Cells that are not 0 up to a 0 make a string of that length.
proof fn lemma_strlen_of(blk: Seq<int>, o: int, n: nat)
    requires
        0 <= o,
        o + n < blk.len(),
        blk[o + n] == 0,
        forall|i: int| o <= i < o + n ==> blk[i] != 0,
    ensures
        strlen_from(blk, o) == Some(n),
    decreases n,
{
    if n > 0 {
        lemma_strlen_of(blk, o + 1, (n - 1) as nat);
    }
}

/// `char + str` writes the string one cell past the block it allocates: the
/// run faults, whatever the character and the string (shorter than 2^64 - 1
/// cells).
#[verifier::rlimit(60)]
pub proof fn lemma_char_plus_str_overruns(c: Val, s: Val, mem: Seq<Seq<int>>)
    requires
        strlen_at(mem, s) is Some,
        strlen_at(mem, s).unwrap() + 1 < 0x1_0000_0000_0000_0000,
    ensures
        outcome(StringMethod::AddCharStr, seq![c, s], mem) is None,
{
    let plan = lowering(StringMethod::AddCharStr);
    let params = seq![c, s];
    let n = strlen_at(mem, s).unwrap();
    let len = mem.len() as int;
    let fresh = Val::Ptr(len, 0);
    let mem1 = mem.push(Seq::new((n + 1) as nat, |i: int| 0));
    let m0 = Machine { mem, vals: Seq::empty() };
    let m1 = Machine { mem, vals: seq![Val::Int(n as int)] };
    let m2 = Machine { mem, vals: seq![Val::Int(n as int), Val::Int(n as int + 1)] };
    let m3 = Machine { mem: mem1, vals: seq![Val::Int(n as int), Val::Int(n as int + 1), fresh] };
    let m4 = Machine { mem: mem1, vals: m3.vals.push(Val::Ptr(len, 1)) };
    assert(run(plan, params, mem, 0) == Some(m0));
    assert(step(params, m0, plan[0]) == Some((mem, Val::Int(n as int)))) by {
        reveal(step);
    }
    lemma_run_step(plan, params, mem, 0, m0, mem, Val::Int(n as int));
    assert(m0.vals.push(Val::Int(n as int)) =~= m1.vals);
    assert(step(params, m1, plan[1]) == Some((mem, Val::Int(n as int + 1)))) by {
        reveal(step);
        assert(wrap(n as int + 1) == n as int + 1);
    }
    lemma_run_step(plan, params, mem, 1, m1, mem, Val::Int(n as int + 1));
    assert(m1.vals.push(Val::Int(n as int + 1)) =~= m2.vals);
    assert(step(params, m2, plan[2]) == Some((mem1, fresh))) by {
        reveal(step);
    }
    lemma_run_step(plan, params, mem, 2, m2, mem1, fresh);
    assert(m2.vals.push(fresh) =~= m3.vals);
    assert(step(params, m3, plan[3]) == Some((mem1, Val::Ptr(len, 1)))) by {
        reveal(step);
    }
    lemma_run_step(plan, params, mem, 3, m3, mem1, Val::Ptr(len, 1));
    assert(step(params, m4, plan[4]) is None) by {
        reveal(step);
        match s {
            Val::Ptr(b, o) => {
                assert(mem1[b] == mem[b]);
                lemma_strlen_found(mem[b], o);
                assert(string_cells(mem1, s, n).len() == n + 1);
            },
            _ => {},
        }
        assert(strlen_at(mem1, s) == Some(n));
        assert(mem1[len].len() == n + 1);
    }
    lemma_run_fault(plan, params, mem, 4, m4);
    assert(run(plan, params, mem, plan.len() as int) is None);
}

/// `str + str` allocates the two lengths together and writes the joined
/// string and its terminator there, one cell past the block: the run faults,
/// whatever the two strings (shorter than 2^64 cells together).
#[verifier::rlimit(60)]
pub proof fn lemma_str_plus_str_overruns(s0: Val, s1: Val, mem: Seq<Seq<int>>)
    requires
        strlen_at(mem, s0) is Some,
        strlen_at(mem, s1) is Some,
        strlen_at(mem, s0).unwrap() + strlen_at(mem, s1).unwrap() < 0x1_0000_0000_0000_0000,
    ensures
        outcome(StringMethod::AddStrings, seq![s0, s1], mem) is None,
{
    let plan = lowering(StringMethod::AddStrings);
    let params = seq![s0, s1];
    let n0 = strlen_at(mem, s0).unwrap() as int;
    let n1 = strlen_at(mem, s1).unwrap() as int;
    let len = mem.len() as int;
    let fresh = Val::Ptr(len, 0);
    let mem1 = mem.push(Seq::new((n0 + n1) as nat, |i: int| 0));
    let m0 = Machine { mem, vals: Seq::empty() };
    let m1 = Machine { mem, vals: seq![Val::Int(n0)] };
    let m2 = Machine { mem, vals: seq![Val::Int(n0), Val::Int(n1)] };
    let m3 = Machine { mem, vals: seq![Val::Int(n0), Val::Int(n1), Val::Int(n0 + n1)] };
    let m4 = Machine { mem: mem1, vals: m3.vals.push(fresh) };
    let (b0, o0) = match s0 {
        Val::Ptr(b, o) => (b, o),
        _ => (0, 0),
    };
    let (b1, o1) = match s1 {
        Val::Ptr(b, o) => (b, o),
        _ => (0, 0),
    };
    lemma_strlen_found(mem[b0], o0);
    lemma_strlen_found(mem[b1], o1);
    assert(mem1[b0] == mem[b0] && mem1[b1] == mem[b1]);
    assert(run(plan, params, mem, 0) == Some(m0));
    assert(step(params, m0, plan[0]) == Some((mem, Val::Int(n0)))) by {
        reveal(step);
    }
    lemma_run_step(plan, params, mem, 0, m0, mem, Val::Int(n0));
    assert(m0.vals.push(Val::Int(n0)) =~= m1.vals);
    assert(step(params, m1, plan[1]) == Some((mem, Val::Int(n1)))) by {
        reveal(step);
    }
    lemma_run_step(plan, params, mem, 1, m1, mem, Val::Int(n1));
    assert(m1.vals.push(Val::Int(n1)) =~= m2.vals);
    assert(step(params, m2, plan[2]) == Some((mem, Val::Int(n0 + n1)))) by {
        reveal(step);
        assert(wrap(n0 + n1) == n0 + n1);
    }
    lemma_run_step(plan, params, mem, 2, m2, mem, Val::Int(n0 + n1));
    assert(m2.vals.push(Val::Int(n0 + n1)) =~= m3.vals);
    assert(step(params, m3, plan[3]) == Some((mem1, fresh))) by {
        reveal(step);
    }
    lemma_run_step(plan, params, mem, 3, m3, mem1, fresh);
    let cells0 = string_cells(mem1, s0, n0 as nat);
    assert(cells0.len() == n0 + 1);
    assert(strlen_at(mem1, s0) == Some(n0 as nat));
    if n1 == 0 {
        assert(step(params, m4, plan[4]) is None) by {
            reveal(step);
        }
        lemma_run_fault(plan, params, mem, 4, m4);
    } else {
        let block = mem1[len].take(0) + cells0 + mem1[len].skip(n0 + 1);
        let mem2 = mem1.update(len, block);
        let m5 = Machine { mem: mem2, vals: m4.vals.push(fresh) };
        assert(step(params, m4, plan[4]) == Some((mem2, fresh))) by {
            reveal(step);
        }
        lemma_run_step(plan, params, mem, 4, m4, mem2, fresh);
        assert(block.len() == n0 + n1);
        assert forall|i: int| 0 <= i < n0 implies block[i] != 0 by {
            assert(block[i] == mem[b0][o0 + i]);
        }
        assert(block[n0] == 0);
        lemma_strlen_of(block, 0, n0 as nat);
        assert(strlen_at(mem2, fresh) == Some(n0 as nat));
        assert(mem2[b1] == mem[b1]);
        assert(strlen_at(mem2, s1) == Some(n1 as nat));
        assert(string_cells(mem2, s1, n1 as nat).len() == n1 + 1);
        assert(step(params, m5, plan[5]) is None) by {
            reveal(step);
        }
        lemma_run_fault(plan, params, mem, 5, m5);
    }
    assert(run(plan, params, mem, plan.len() as int) is None);
}

/// `str + char` allocates one cell more than the string, copies the string
/// with its terminator, puts the character over the terminator and writes the
/// new terminator one cell past the block: the run faults, whatever the
/// string (shorter than 2^64 - 1 cells) and the character.
#[verifier::rlimit(60)]
pub proof fn lemma_str_plus_char_overruns(s: Val, c: Val, mem: Seq<Seq<int>>)
    requires
        strlen_at(mem, s) is Some,
        strlen_at(mem, s).unwrap() + 1 < 0x1_0000_0000_0000_0000,
        cell_at(mem, c),
    ensures
        outcome(StringMethod::AddStrChar, seq![s, c], mem) is None,
{
    let plan = lowering(StringMethod::AddStrChar);
    let params = seq![s, c];
    let n = strlen_at(mem, s).unwrap() as int;
    let len = mem.len() as int;
    let fresh = Val::Ptr(len, 0);
    let mem1 = mem.push(Seq::new((n + 1) as nat, |i: int| 0));
    let (b, o) = match s {
        Val::Ptr(b, o) => (b, o),
        _ => (0, 0),
    };
    lemma_strlen_found(mem[b], o);
    assert(mem1[b] == mem[b]);
    let x = read(mem, c);
    let m0 = Machine { mem, vals: Seq::empty() };
    let m1 = Machine { mem, vals: seq![Val::Int(n)] };
    let m2 = Machine { mem, vals: seq![Val::Int(n), Val::Int(n + 1)] };
    let m3 = Machine { mem: mem1, vals: m2.vals.push(fresh) };
    assert(run(plan, params, mem, 0) == Some(m0));
    assert(step(params, m0, plan[0]) == Some((mem, Val::Int(n)))) by {
        reveal(step);
    }
    lemma_run_step(plan, params, mem, 0, m0, mem, Val::Int(n));
    assert(m0.vals.push(Val::Int(n)) =~= m1.vals);
    assert(step(params, m1, plan[1]) == Some((mem, Val::Int(n + 1)))) by {
        reveal(step);
        assert(wrap(n + 1) == n + 1);
    }
    lemma_run_step(plan, params, mem, 1, m1, mem, Val::Int(n + 1));
    assert(m1.vals.push(Val::Int(n + 1)) =~= m2.vals);
    assert(step(params, m2, plan[2]) == Some((mem1, fresh))) by {
        reveal(step);
    }
    lemma_run_step(plan, params, mem, 2, m2, mem1, fresh);
    let cells = string_cells(mem1, s, n as nat);
    assert(cells.len() == n + 1);
    let mem2 = mem1.update(len, mem1[len].take(0) + cells + mem1[len].skip(n + 1));
    let m4 = Machine { mem: mem2, vals: m3.vals.push(fresh) };
    assert(step(params, m3, plan[3]) == Some((mem2, fresh))) by {
        reveal(step);
        assert(strlen_at(mem1, s) == Some(n as nat));
    }
    lemma_run_step(plan, params, mem, 3, m3, mem2, fresh);
    let m5 = Machine { mem: mem2, vals: m4.vals.push(Val::Ptr(len, n)) };
    assert(step(params, m4, plan[4]) == Some((mem2, Val::Ptr(len, n)))) by {
        reveal(step);
    }
    lemma_run_step(plan, params, mem, 4, m4, mem2, Val::Ptr(len, n));
    let (bc, oc) = match c {
        Val::Ptr(bc, oc) => (bc, oc),
        _ => (0, 0),
    };
    assert(mem2[bc] == mem[bc]);
    let m6 = Machine { mem: mem2, vals: m5.vals.push(Val::Int(x)) };
    assert(step(params, m5, plan[5]) == Some((mem2, Val::Int(x)))) by {
        reveal(step);
    }
    lemma_run_step(plan, params, mem, 5, m5, mem2, Val::Int(x));
    assert(mem2[len].len() == n + 1);
    let mem3 = mem2.update(len, mem2[len].take(n) + seq![x] + mem2[len].skip(n + 1));
    let m7 = Machine { mem: mem3, vals: m6.vals.push(Val::Nothing) };
    assert(step(params, m6, plan[6]) == Some((mem3, Val::Nothing))) by {
        reveal(step);
    }
    lemma_run_step(plan, params, mem, 6, m6, mem3, Val::Nothing);
    let m8 = Machine { mem: mem3, vals: m7.vals.push(Val::Int(n + 1)) };
    assert(step(params, m7, plan[7]) == Some((mem3, Val::Int(n + 1)))) by {
        reveal(step);
        assert(wrap(n + 1) == n + 1);
    }
    lemma_run_step(plan, params, mem, 7, m7, mem3, Val::Int(n + 1));
    let m9 = Machine { mem: mem3, vals: m8.vals.push(Val::Ptr(len, n + 1)) };
    assert(step(params, m8, plan[8]) == Some((mem3, Val::Ptr(len, n + 1)))) by {
        reveal(step);
    }
    lemma_run_step(plan, params, mem, 8, m8, mem3, Val::Ptr(len, n + 1));
    assert(mem3[len].len() == n + 1);
    assert(step(params, m9, plan[9]) is None) by {
        reveal(step);
    }
    lemma_run_fault(plan, params, mem, 9, m9);
    assert(run(plan, params, mem, plan.len() as int) is None);
}

} // verus!
