use language::string_internal::{lower, Instruction, Operand, StringMethod};

#[derive(Clone, Copy, Debug, PartialEq)]
enum V {
    Int(i64),
    Ptr(usize, usize),
    Nothing,
}

/// Runs a lowering on cell memory; `Err` where it reads or writes outside a block.
fn run(plan: &[Instruction], params: &[V], mem: &mut Vec<Vec<i64>>) -> Result<V, String> {
    let mut vals: Vec<V> = Vec::new();
    let strlen = |mem: &Vec<Vec<i64>>, p: V| -> Result<usize, String> {
        let (b, o) = match p { V::Ptr(b, o) => (b, o), _ => return Err("not a pointer".into()) };
        let mut n = 0;
        loop {
            let cell = *mem[b].get(o + n).ok_or("string without terminator")?;
            if cell == 0 {
                return Ok(n);
            }
            n += 1;
        }
    };
    let write = |mem: &mut Vec<Vec<i64>>, p: V, cells: &[i64]| -> Result<(), String> {
        let (b, o) = match p { V::Ptr(b, o) => (b, o), _ => return Err("not a pointer".into()) };
        if o + cells.len() > mem[b].len() {
            return Err(format!("write of {} cells at {} in a block of {}", cells.len(), o, mem[b].len()));
        }
        mem[b][o..o + cells.len()].copy_from_slice(cells);
        Ok(())
    };
    let string_cells = |mem: &Vec<Vec<i64>>, p: V, n: usize| -> Vec<i64> {
        match p {
            V::Ptr(b, o) => {
                let mut c = mem[b][o..o + n].to_vec();
                c.push(0);
                c
            }
            _ => vec![],
        }
    };
    for ins in plan {
        let v = |o: Operand| match o {
            Operand::Param(j) => params[j as usize],
            Operand::Value(j) => vals[j as usize],
            Operand::Int(n) => V::Int(n as i64),
            Operand::ZeroByte => V::Int(0),
        };
        let made = match *ins {
            Instruction::Strlen(a) => V::Int(strlen(mem, v(a))? as i64),
            Instruction::Add(a, b) => match (v(a), v(b)) {
                (V::Int(x), V::Int(y)) => V::Int(x.wrapping_add(y)),
                _ => return Err("not integers".into()),
            },
            Instruction::Malloc(a) => match v(a) {
                V::Int(n) => {
                    mem.push(vec![0; n as usize]);
                    V::Ptr(mem.len() - 1, 0)
                }
                _ => return Err("not a size".into()),
            },
            Instruction::AllocateLike(_) => {
                mem.push(vec![0; 1]);
                V::Ptr(mem.len() - 1, 0)
            }
            Instruction::CastToIntPointer(a) => v(a),
            Instruction::Load(a) => match v(a) {
                V::Ptr(b, o) => V::Int(*mem[b].get(o).ok_or("read outside a block")?),
                _ => return Err("not a pointer".into()),
            },
            Instruction::Store(a, b) => match v(b) {
                V::Int(x) => {
                    write(mem, v(a), &[x])?;
                    V::Nothing
                }
                _ => return Err("not a value".into()),
            },
            Instruction::Strcpy(a, b) => {
                let n = strlen(mem, v(b))?;
                let cells = string_cells(mem, v(b), n);
                write(mem, v(a), &cells)?;
                v(a)
            }
            Instruction::Strcat(a, b) => {
                let k = strlen(mem, v(a))?;
                let n = strlen(mem, v(b))?;
                let cells = string_cells(mem, v(b), n);
                let at = match v(a) { V::Ptr(bl, o) => V::Ptr(bl, o + k), _ => V::Nothing };
                write(mem, at, &cells)?;
                v(a)
            }
            Instruction::Offset(a, b) => match (v(a), v(b)) {
                (V::Ptr(bl, o), V::Int(k)) => V::Ptr(bl, (o as i64 + k) as usize),
                _ => return Err("not an offset".into()),
            },
            Instruction::Return(a) => return Ok(v(a)),
        };
        vals.push(made);
    }
    Err("no return".into())
}

fn c_string(s: &str) -> Vec<i64> {
    let mut v: Vec<i64> = s.bytes().map(|b| b as i64).collect();
    v.push(0);
    v
}

#[test]
fn running_cast_returns_its_parameter() {
    let mut mem = vec![c_string("hi")];
    assert_eq!(run(&lower(StringMethod::Cast), &[V::Ptr(0, 0)], &mut mem), Ok(V::Ptr(0, 0)));
}

#[test]
fn char_plus_number_moves_the_character_on() {
    let mut mem = vec![vec![97], vec![2]];
    let r = run(&lower(StringMethod::AddCharNumber), &[V::Ptr(0, 0), V::Ptr(1, 0)], &mut mem);
    assert_eq!(r, Ok(V::Ptr(2, 0)));
    assert_eq!(mem[2], vec![99]);
    assert_eq!(mem[0], vec![97]);
    // The 64-bit addition wraps around: 'a' moved on by 2^64 - 1 is 96.
    let mut mem = vec![vec![97], vec![u64::MAX as i64]];
    let r = run(&lower(StringMethod::AddCharNumber), &[V::Ptr(0, 0), V::Ptr(1, 0)], &mut mem);
    assert_eq!(r, Ok(V::Ptr(2, 0)));
    assert_eq!(mem[2], vec![96]);
}

#[test]
fn string_joins_write_one_cell_past_their_block() {
    for (a, b) in [("ab", "cd"), ("", "x"), ("x", ""), ("", "")] {
        let mut mem = vec![c_string(a), c_string(b)];
        let r = run(&lower(StringMethod::AddStrings), &[V::Ptr(0, 0), V::Ptr(1, 0)], &mut mem);
        assert!(r.is_err(), "{:?}", r);
    }
    let mut mem = vec![c_string("ab"), vec![99]];
    assert!(run(&lower(StringMethod::AddStrChar), &[V::Ptr(0, 0), V::Ptr(1, 0)], &mut mem).is_err());
    // The character did land over the old terminator before the fault.
    assert_eq!(mem[2], vec![97, 98, 99]);
    let mut mem = vec![vec![99], c_string("ab")];
    assert!(run(&lower(StringMethod::AddCharStr), &[V::Ptr(0, 0), V::Ptr(1, 0)], &mut mem).is_err());
}
