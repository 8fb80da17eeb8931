use language::string_internal::Instruction::{
    Add, AllocateLike, CastToIntPointer, Load, Malloc, Offset, Return, Store, Strcat, Strcpy,
    Strlen,
};
use language::string_internal::Operand::{Int, Param, Value, ZeroByte};
use language::string_internal::{
    lower, starts_with, string_internal, string_method, Instruction, Operand, StringMethod,
};

#[test]
fn method_names_are_recognised_by_prefix() {
    assert_eq!(string_method("string::Cast"), Some(StringMethod::Cast));
    assert_eq!(string_method("string::Cast<str>_str::cast"), Some(StringMethod::Cast));
    assert_eq!(
        string_method("string::Add<char + u64>_char::add"),
        Some(StringMethod::AddCharNumber)
    );
    assert_eq!(string_method("string::Add<str + str>_str::add"), Some(StringMethod::AddStrings));
    assert_eq!(string_method("string::Add<str + char>_str::add"), Some(StringMethod::AddStrChar));
    assert_eq!(string_method("string::Add<char + str>_char::add_1"), Some(StringMethod::AddCharStr));
    assert_eq!(string_method("string::Add<u64 + u64>_u64::add"), None);
    assert_eq!(string_method("string::Cas"), None);
    assert_eq!(string_method(""), None);
    assert_eq!(string_method("math::Cast"), None);
}

#[test]
fn prefixes_compare_characters() {
    assert!(starts_with("héllo", "hé"));
    assert!(!starts_with("hello", "hé"));
    assert!(starts_with("abc", ""));
    assert!(!starts_with("ab", "abc"));
}

#[test]
fn unknown_methods_are_not_compiled_here() {
    assert_eq!(string_internal("numbers::Add<u64 + u64>_u64::add"), None);
}

#[test]
fn cast_returns_its_parameter() {
    assert_eq!(string_internal("string::Cast"), Some(vec![Instruction::Return(Operand::Param(0))]));
}

#[test]
fn joining_two_strings() {
    assert_eq!(
        string_internal("string::Add<str + str>_str::add"),
        Some(vec![
            Strlen(Param(0)),
            Strlen(Param(1)),
            Add(Value(0), Value(1)),
            Malloc(Value(2)),
            Strcpy(Value(3), Param(0)),
            Strcat(Value(3), Param(1)),
            Return(Value(3)),
        ])
    );
}

#[test]
fn appending_and_prepending_a_character() {
    let append = lower(StringMethod::AddStrChar);
    assert_eq!(append[0], Strlen(Param(0)));
    assert_eq!(append[2], Malloc(Value(1)));
    assert_eq!(append[4], Offset(Value(2), Value(0)));
    assert_eq!(append[9], Store(Value(8), ZeroByte));
    assert_eq!(append.last(), Some(&Return(Value(2))));
    let prepend = lower(StringMethod::AddCharStr);
    assert_eq!(prepend[0], Strlen(Param(1)));
    assert_eq!(prepend[3], Offset(Value(2), Int(1)));
    assert_eq!(prepend[4], Strcpy(Value(3), Param(1)));
    assert_eq!(prepend[7], Store(Value(5), Value(6)));
    assert_eq!(prepend.len(), 9);
}

#[test]
fn moving_a_character_on() {
    assert_eq!(
        lower(StringMethod::AddCharNumber),
        vec![
            AllocateLike(Param(0)),
            CastToIntPointer(Param(0)),
            Load(Value(1)),
            Load(Param(1)),
            Add(Value(2), Value(3)),
            Store(Value(0), Value(4)),
            Return(Value(0)),
        ]
    );
}

fn operands(i: &Instruction) -> Vec<Operand> {
    match *i {
        Strlen(a) | Malloc(a) | AllocateLike(a) | CastToIntPointer(a) | Load(a) | Return(a) => vec![a],
        Add(a, c) | Store(a, c) | Strcpy(a, c) | Strcat(a, c) | Offset(a, c) => vec![a, c],
    }
}

#[test]
fn every_lowering_is_well_formed() {
    for (m, arity) in [
        (StringMethod::Cast, 1),
        (StringMethod::AddCharNumber, 2),
        (StringMethod::AddStrings, 2),
        (StringMethod::AddStrChar, 2),
        (StringMethod::AddCharStr, 2),
    ] {
        let plan = lower(m);
        for (k, ins) in plan.iter().enumerate() {
            assert_eq!(matches!(ins, Instruction::Return(_)), k == plan.len() - 1);
            for o in operands(ins) {
                match o {
                    Operand::Param(j) => assert!(j < arity),
                    Operand::Value(j) => {
                        assert!((j as usize) < k);
                        assert!(!matches!(
                            plan[j as usize],
                            Instruction::Store(..) | Instruction::Return(_)
                        ));
                    }
                    _ => {}
                }
            }
        }
    }
}
