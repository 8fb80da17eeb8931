use vstd::prelude::*;
use vstd::string::StrSliceExecFns;

verus! {

// The compiler implements a few methods of the language's string type
// directly: each is lowered to a short sequence of instructions over the
// method's parameters, with calls to the C library's `strlen`, `malloc`,
// `strcpy` and `strcat`.

/// The string methods that are compiled directly.
#[derive(PartialEq, Eq, Structural, Clone, Copy, Debug)]
pub enum StringMethod {
    /// `string::Cast`: the value itself.
    Cast,
    /// `char + u64`: the character moved on by a number.
    AddCharNumber,
    /// `str + str`: the two strings joined.
    AddStrings,
    /// `str + char`: the string with the character appended.
    AddStrChar,
    /// `char + str`: the string with the character prepended.
    AddCharStr,
}

/// A value that an instruction reads.
#[derive(PartialEq, Eq, Structural, Clone, Copy, Debug)]
pub enum Operand {
    /// The method's parameter at this position.
    Param(u32),
    /// The value of the instruction at this position of the same lowering.
    Value(u32),
    /// A 64-bit integer constant.
    Int(u64),
    /// The byte 0, a string's terminator.
    ZeroByte,
}

/// One instruction of a lowering.
#[derive(PartialEq, Eq, Structural, Clone, Copy, Debug)]
pub enum Instruction {
    /// The length of the C string the operand points to (`strlen`).
    Strlen(Operand),
    /// The sum of two integers.
    Add(Operand, Operand),
    /// A fresh block of memory of the given number of bytes (`malloc`).
    Malloc(Operand),
    /// A fresh block of memory for a value of the type the operand points to.
    AllocateLike(Operand),
    /// The pointer operand, seen as a pointer to a 64-bit integer.
    CastToIntPointer(Operand),
    /// The value the pointer operand points to.
    Load(Operand),
    /// Writes the second operand where the first one points.
    Store(Operand, Operand),
    /// Copies the C string of the second operand to the first (`strcpy`).
    Strcpy(Operand, Operand),
    /// Appends the C string of the second operand to the first (`strcat`).
    Strcat(Operand, Operand),
    /// The pointer operand moved on by the given number of elements.
    Offset(Operand, Operand),
    /// Returns the operand from the method.
    Return(Operand),
}

/// `s` starts with `p`.
pub open spec fn has_prefix(s: Seq<char>, p: Seq<char>) -> bool {
    p.len() <= s.len() && s.take(p.len() as int) == p
}

/// The method that a function name denotes: the first of the method names
/// that the name starts with, in the order `string::Cast`,
/// `string::Add<char + u64>_char::add`, `string::Add<str + str>_str::add`,
/// `string::Add<str + char>_str::add`, `string::Add<char + str>_char::add`.
pub open spec fn method_of(name: Seq<char>) -> Option<StringMethod> {
    if has_prefix(name, "string::Cast"@) {
        Some(StringMethod::Cast)
    } else if has_prefix(name, "string::Add<char + u64>_char::add"@) {
        Some(StringMethod::AddCharNumber)
    } else if has_prefix(name, "string::Add<str + str>_str::add"@) {
        Some(StringMethod::AddStrings)
    } else if has_prefix(name, "string::Add<str + char>_str::add"@) {
        Some(StringMethod::AddStrChar)
    } else if has_prefix(name, "string::Add<char + str>_char::add"@) {
        Some(StringMethod::AddCharStr)
    } else {
        None
    }
}

/// The instructions that a method is compiled to.
pub open spec fn lowering(m: StringMethod) -> Seq<Instruction> {
    match m {
        StringMethod::Cast => seq![Instruction::Return(Operand::Param(0))],
        StringMethod::AddCharNumber => seq![
            Instruction::AllocateLike(Operand::Param(0)),
            Instruction::CastToIntPointer(Operand::Param(0)),
            Instruction::Load(Operand::Value(1)),
            Instruction::Load(Operand::Param(1)),
            Instruction::Add(Operand::Value(2), Operand::Value(3)),
            Instruction::Store(Operand::Value(0), Operand::Value(4)),
            Instruction::Return(Operand::Value(0)),
        ],
        StringMethod::AddStrings => seq![
            Instruction::Strlen(Operand::Param(0)),
            Instruction::Strlen(Operand::Param(1)),
            Instruction::Add(Operand::Value(0), Operand::Value(1)),
            Instruction::Malloc(Operand::Value(2)),
            Instruction::Strcpy(Operand::Value(3), Operand::Param(0)),
            Instruction::Strcat(Operand::Value(3), Operand::Param(1)),
            Instruction::Return(Operand::Value(3)),
        ],
        StringMethod::AddStrChar => seq![
            Instruction::Strlen(Operand::Param(0)),
            Instruction::Add(Operand::Value(0), Operand::Int(1)),
            Instruction::Malloc(Operand::Value(1)),
            Instruction::Strcpy(Operand::Value(2), Operand::Param(0)),
            Instruction::Offset(Operand::Value(2), Operand::Value(0)),
            Instruction::Load(Operand::Param(1)),
            Instruction::Store(Operand::Value(4), Operand::Value(5)),
            Instruction::Add(Operand::Value(0), Operand::Int(1)),
            Instruction::Offset(Operand::Value(2), Operand::Value(7)),
            Instruction::Store(Operand::Value(8), Operand::ZeroByte),
            Instruction::Return(Operand::Value(2)),
        ],
        StringMethod::AddCharStr => seq![
            Instruction::Strlen(Operand::Param(1)),
            Instruction::Add(Operand::Value(0), Operand::Int(1)),
            Instruction::Malloc(Operand::Value(1)),
            Instruction::Offset(Operand::Value(2), Operand::Int(1)),
            Instruction::Strcpy(Operand::Value(3), Operand::Param(1)),
            Instruction::Offset(Operand::Value(2), Operand::Int(0)),
            Instruction::Load(Operand::Param(0)),
            Instruction::Store(Operand::Value(5), Operand::Value(6)),
            Instruction::Return(Operand::Value(2)),
        ],
    }
}

/// Whether `s` starts with `p`.
pub fn starts_with(s: &str, p: &str) -> (b: bool)
    ensures
        b == has_prefix(s@, p@),
{
    let n = p.unicode_len();
    if n > s.unicode_len() {
        return false;
    }
    let mut i: usize = 0;
    while i < n
        invariant
            i <= n,
            n == p@.len(),
            n <= s@.len(),
            s@.take(i as int) == p@.take(i as int),
        decreases n - i,
    {
        if s.get_char(i) != p.get_char(i) {
            assert(s@.take(p@.len() as int)[i as int] != p@[i as int]);
            return false;
        }
        i = i + 1;
        assert(s@.take(i as int) =~= p@.take(i as int));
    }
    assert(p@.take(n as int) =~= p@);
    true
}

/// The method that the function `name` denotes, where it is one that is
/// compiled directly; see `method_of`.
pub fn string_method(name: &str) -> (m: Option<StringMethod>)
    ensures
        m == method_of(name@),
{
    if starts_with(name, "string::Cast") {
        Some(StringMethod::Cast)
    } else if starts_with(name, "string::Add<char + u64>_char::add") {
        Some(StringMethod::AddCharNumber)
    } else if starts_with(name, "string::Add<str + str>_str::add") {
        Some(StringMethod::AddStrings)
    } else if starts_with(name, "string::Add<str + char>_str::add") {
        Some(StringMethod::AddStrChar)
    } else if starts_with(name, "string::Add<char + str>_char::add") {
        Some(StringMethod::AddCharStr)
    } else {
        None
    }
}

/// The instructions that method `m` is compiled to; see `lowering`.
pub fn lower(m: StringMethod) -> (plan: Vec<Instruction>)
    ensures
        plan@ == lowering(m),
{
    let plan: Vec<Instruction> = match m {
        StringMethod::Cast => vec![Instruction::Return(Operand::Param(0))],
        StringMethod::AddCharNumber => vec![
            Instruction::AllocateLike(Operand::Param(0)),
            Instruction::CastToIntPointer(Operand::Param(0)),
            Instruction::Load(Operand::Value(1)),
            Instruction::Load(Operand::Param(1)),
            Instruction::Add(Operand::Value(2), Operand::Value(3)),
            Instruction::Store(Operand::Value(0), Operand::Value(4)),
            Instruction::Return(Operand::Value(0)),
        ],
        StringMethod::AddStrings => vec![
            Instruction::Strlen(Operand::Param(0)),
            Instruction::Strlen(Operand::Param(1)),
            Instruction::Add(Operand::Value(0), Operand::Value(1)),
            Instruction::Malloc(Operand::Value(2)),
            Instruction::Strcpy(Operand::Value(3), Operand::Param(0)),
            Instruction::Strcat(Operand::Value(3), Operand::Param(1)),
            Instruction::Return(Operand::Value(3)),
        ],
        StringMethod::AddStrChar => vec![
            Instruction::Strlen(Operand::Param(0)),
            Instruction::Add(Operand::Value(0), Operand::Int(1)),
            Instruction::Malloc(Operand::Value(1)),
            Instruction::Strcpy(Operand::Value(2), Operand::Param(0)),
            Instruction::Offset(Operand::Value(2), Operand::Value(0)),
            Instruction::Load(Operand::Param(1)),
            Instruction::Store(Operand::Value(4), Operand::Value(5)),
            Instruction::Add(Operand::Value(0), Operand::Int(1)),
            Instruction::Offset(Operand::Value(2), Operand::Value(7)),
            Instruction::Store(Operand::Value(8), Operand::ZeroByte),
            Instruction::Return(Operand::Value(2)),
        ],
        StringMethod::AddCharStr => vec![
            Instruction::Strlen(Operand::Param(1)),
            Instruction::Add(Operand::Value(0), Operand::Int(1)),
            Instruction::Malloc(Operand::Value(1)),
            Instruction::Offset(Operand::Value(2), Operand::Int(1)),
            Instruction::Strcpy(Operand::Value(3), Operand::Param(1)),
            Instruction::Offset(Operand::Value(2), Operand::Int(0)),
            Instruction::Load(Operand::Param(0)),
            Instruction::Store(Operand::Value(5), Operand::Value(6)),
            Instruction::Return(Operand::Value(2)),
        ],
    };
    assert(plan@ =~= lowering(m));
    plan
}

/// The instructions that the function `name` is compiled to, where it is a
/// string method that is compiled directly, and `None` where it is not.
pub fn string_internal(name: &str) -> (plan: Option<Vec<Instruction>>)
    ensures
        plan is Some <==> method_of(name@) is Some,
        plan matches Some(p) ==> p@ == lowering(method_of(name@).unwrap()),
{
    match string_method(name) {
        Some(m) => Some(lower(m)),
        None => None,
    }
}

/// The number of parameters that a method takes.
pub open spec fn arity(m: StringMethod) -> nat {
    match m {
        StringMethod::Cast => 1,
        _ => 2,
    }
}

/// The instruction produces a value that later instructions may read.
pub open spec fn yields_value(i: Instruction) -> bool {
    !(i is Store) && !(i is Return)
}

/// Instruction `k` of `plan` may read `o`: a parameter the method has, or the
/// value of an earlier instruction that produces one.
pub open spec fn operand_ok(plan: Seq<Instruction>, arity: nat, k: int, o: Operand) -> bool {
    match o {
        Operand::Param(j) => j < arity,
        Operand::Value(j) => j < k && yields_value(plan[j as int]),
        _ => true,
    }
}

/// Every operand of instruction `k` of `plan` may be read there, and the
/// instruction is a return exactly where it is the last one.
pub open spec fn instruction_ok(plan: Seq<Instruction>, arity: nat, k: int) -> bool {
    &&& match plan[k] {
        Instruction::Strlen(a) => operand_ok(plan, arity, k, a),
        Instruction::Add(a, b) => operand_ok(plan, arity, k, a) && operand_ok(plan, arity, k, b),
        Instruction::Malloc(a) => operand_ok(plan, arity, k, a),
        Instruction::AllocateLike(a) => operand_ok(plan, arity, k, a),
        Instruction::CastToIntPointer(a) => operand_ok(plan, arity, k, a),
        Instruction::Load(a) => operand_ok(plan, arity, k, a),
        Instruction::Store(a, b) => operand_ok(plan, arity, k, a) && operand_ok(plan, arity, k, b),
        Instruction::Strcpy(a, b) => operand_ok(plan, arity, k, a) && operand_ok(plan, arity, k, b),
        Instruction::Strcat(a, b) => operand_ok(plan, arity, k, a) && operand_ok(plan, arity, k, b),
        Instruction::Offset(a, b) => operand_ok(plan, arity, k, a) && operand_ok(plan, arity, k, b),
        Instruction::Return(a) => operand_ok(plan, arity, k, a),
    }
    &&& (plan[k] is Return <==> k == plan.len() - 1)
}

/// The first `n` instructions of `plan` are each fine.
pub open spec fn instructions_ok(plan: Seq<Instruction>, arity: nat, n: int) -> bool
    decreases n,
{
    n <= 0 || (instructions_ok(plan, arity, n - 1) && instruction_ok(plan, arity, n - 1))
}

/// `plan` is a straight-line program over `arity` parameters: each
/// instruction reads parameters the method has and values made before it,
/// and the program ends with its one return.
pub open spec fn well_formed(plan: Seq<Instruction>, arity: nat) -> bool {
    plan.len() > 0 && instructions_ok(plan, arity, plan.len() as int)
}

/// Every method is compiled to a well-formed straight-line program: no
/// instruction reads a value before it is made or a parameter that the method
/// lacks, and the program returns once, at its end.
pub proof fn lemma_lowering_well_formed(m: StringMethod)
    ensures
        well_formed(lowering(m), arity(m)),
{
    reveal_with_fuel(instructions_ok, 12);
}

/// `string::Cast` is compiled to returning its parameter, and nothing else.
pub proof fn lemma_cast_layout()
    ensures
        lowering(StringMethod::Cast) == seq![Instruction::Return(Operand::Param(0))],
{
}

/// `char + str` returns the start of the block it allocates; the character
/// (what its first parameter points to) is stored in the block's first cell,
/// and the string (its second parameter) is copied from the block's second
/// cell on.
pub proof fn lemma_char_str_layout()
    ensures
        ({
            let plan = lowering(StringMethod::AddCharStr);
            &&& plan.last() matches Instruction::Return(Operand::Value(j)) && j < plan.len()
                && plan[j as int] is Malloc && (exists|k: int, a: int, b: int|
                #![trigger plan[k], plan[a], plan[b]]
                0 <= k < plan.len() && 0 <= a < plan.len() && 0 <= b < plan.len() && plan[k]
                    == Instruction::Store(Operand::Value(a as u32), Operand::Value(b as u32))
                    && plan[a] == Instruction::Offset(Operand::Value(j), Operand::Int(0))
                    && plan[b] == Instruction::Load(Operand::Param(0))) && (exists|k: int, c: int|
                #![trigger plan[k], plan[c]]
                0 <= k < plan.len() && 0 <= c < plan.len() && plan[k] == Instruction::Strcpy(
                    Operand::Value(c as u32),
                    Operand::Param(1),
                ) && plan[c] == Instruction::Offset(Operand::Value(j), Operand::Int(1)))
        }),
{
    let plan = lowering(StringMethod::AddCharStr);
    assert(plan[7] == Instruction::Store(Operand::Value(5), Operand::Value(6)));
    assert(plan[5] == Instruction::Offset(Operand::Value(2), Operand::Int(0)));
    assert(plan[6] == Instruction::Load(Operand::Param(0)));
    assert(plan[4] == Instruction::Strcpy(Operand::Value(3), Operand::Param(1)));
    assert(plan[3] == Instruction::Offset(Operand::Value(2), Operand::Int(1)));
}

/// `str + char` returns the start of the block it allocates; the string (its
/// first parameter) is copied there, and the character (what its second
/// parameter points to) is stored right after the string, at the string's
/// length.
pub proof fn lemma_str_char_layout()
    ensures
        ({
            let plan = lowering(StringMethod::AddStrChar);
            &&& plan.last() matches Instruction::Return(Operand::Value(j)) && j < plan.len()
                && plan[j as int] is Malloc && (exists|k: int|
                #![trigger plan[k]]
                0 <= k < plan.len() && plan[k] == Instruction::Strcpy(
                    Operand::Value(j),
                    Operand::Param(0),
                )) && (exists|k: int, a: int, b: int, n: int|
                #![trigger plan[k], plan[a], plan[b], plan[n]]
                0 <= k < plan.len() && 0 <= a < plan.len() && 0 <= b < plan.len() && 0 <= n
                    < plan.len() && plan[k] == Instruction::Store(
                    Operand::Value(a as u32),
                    Operand::Value(b as u32),
                ) && plan[a] == Instruction::Offset(Operand::Value(j), Operand::Value(n as u32))
                    && plan[n] == Instruction::Strlen(Operand::Param(0)) && plan[b]
                    == Instruction::Load(Operand::Param(1)))
        }),
{
    let plan = lowering(StringMethod::AddStrChar);
    assert(plan[3] == Instruction::Strcpy(Operand::Value(2), Operand::Param(0)));
    assert(plan[6] == Instruction::Store(Operand::Value(4), Operand::Value(5)));
    assert(plan[4] == Instruction::Offset(Operand::Value(2), Operand::Value(0)));
    assert(plan[0] == Instruction::Strlen(Operand::Param(0)));
    assert(plan[5] == Instruction::Load(Operand::Param(1)));
}

/// `str + str` returns the start of a block sized by the two strings'
/// lengths together, into which the first string is copied and the second
/// appended.
pub proof fn lemma_str_str_layout()
    ensures
        ({
            let plan = lowering(StringMethod::AddStrings);
            &&& plan.last() matches Instruction::Return(Operand::Value(j)) && j < plan.len()
                && (exists|t: int, x: int, y: int|
                #![trigger plan[t], plan[x], plan[y]]
                0 <= t < plan.len() && 0 <= x < plan.len() && 0 <= y < plan.len() && plan[j as int]
                    == Instruction::Malloc(Operand::Value(t as u32)) && plan[t] == Instruction::Add(
                    Operand::Value(x as u32),
                    Operand::Value(y as u32),
                ) && plan[x] == Instruction::Strlen(Operand::Param(0)) && plan[y]
                    == Instruction::Strlen(Operand::Param(1))) && (exists|k: int|
                #![trigger plan[k]]
                0 <= k < plan.len() && plan[k] == Instruction::Strcpy(
                    Operand::Value(j),
                    Operand::Param(0),
                )) && (exists|k: int|
                #![trigger plan[k]]
                0 <= k < plan.len() && plan[k] == Instruction::Strcat(
                    Operand::Value(j),
                    Operand::Param(1),
                ))
        }),
{
    let plan = lowering(StringMethod::AddStrings);
    assert(plan[3] == Instruction::Malloc(Operand::Value(2)));
    assert(plan[2] == Instruction::Add(Operand::Value(0), Operand::Value(1)));
    assert(plan[0] == Instruction::Strlen(Operand::Param(0)));
    assert(plan[1] == Instruction::Strlen(Operand::Param(1)));
    assert(plan[4] == Instruction::Strcpy(Operand::Value(3), Operand::Param(0)));
    assert(plan[5] == Instruction::Strcat(Operand::Value(3), Operand::Param(1)));
}

/// `char + u64` returns the start of a fresh block for a character, into
/// which it stores the sum of the character (its first parameter, read as a
/// 64-bit number) and the number (what its second parameter points to).
pub proof fn lemma_char_number_layout()
    ensures
        ({
            let plan = lowering(StringMethod::AddCharNumber);
            &&& plan.last() matches Instruction::Return(Operand::Value(j)) && j < plan.len()
                && plan[j as int] == Instruction::AllocateLike(Operand::Param(0)) && (exists|
                k: int,
                t: int,
                x: int,
                y: int,
                c: int,
            |
                #![trigger plan[k], plan[t], plan[x], plan[y], plan[c]]
                0 <= k < plan.len() && 0 <= t < plan.len() && 0 <= x < plan.len() && 0 <= y
                    < plan.len() && 0 <= c < plan.len() && plan[k] == Instruction::Store(
                    Operand::Value(j),
                    Operand::Value(t as u32),
                ) && plan[t] == Instruction::Add(Operand::Value(x as u32), Operand::Value(y as u32))
                    && plan[x] == Instruction::Load(Operand::Value(c as u32)) && plan[c]
                    == Instruction::CastToIntPointer(Operand::Param(0)) && plan[y]
                    == Instruction::Load(Operand::Param(1)))
        }),
{
    let plan = lowering(StringMethod::AddCharNumber);
    assert(plan[5] == Instruction::Store(Operand::Value(0), Operand::Value(4)));
    assert(plan[4] == Instruction::Add(Operand::Value(2), Operand::Value(3)));
    assert(plan[2] == Instruction::Load(Operand::Value(1)));
    assert(plan[1] == Instruction::CastToIntPointer(Operand::Param(0)));
    assert(plan[3] == Instruction::Load(Operand::Param(1)));
}

} // verus!
