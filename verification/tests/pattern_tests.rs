use language::pattern::{
    collapsed_length, combination_candidates, combine, contains_spread, ends_with_slot,
    is_char_boundary, remainder_of, starts_with_slot, candidates_can_be_formed,
};

fn b(s: &str) -> Vec<u8> {
    s.as_bytes().to_vec()
}

#[test]
fn slots_at_the_ends() {
    assert!(starts_with_slot(&b("{}+{}")));
    assert!(ends_with_slot(&b("{}+{}")));
    assert!(!starts_with_slot(&b("-{}")));
    assert!(ends_with_slot(&b("-{}")));
    assert!(starts_with_slot(&b("{}[{}]")));
    assert!(!ends_with_slot(&b("{}[{}]")));
    assert!(!starts_with_slot(&b("{")));
    assert!(!ends_with_slot(&b("}")));
    assert!(starts_with_slot(&b("{}")));
    assert!(ends_with_slot(&b("{}")));
}

#[test]
fn spread_slots_are_found_and_collapsed() {
    assert!(contains_spread(&b("[{+}]")));
    assert!(!contains_spread(&b("[{}]")));
    assert!(!contains_spread(&b("{+")));
    assert_eq!(collapsed_length(&b("[{+}]")), 4);
    assert_eq!(collapsed_length(&b("{+}{+}")), 4);
    assert_eq!(collapsed_length(&b("{}+{}")), 5);
    assert_eq!(collapsed_length(&b("")), 0);
    assert_eq!(collapsed_length(&b("[{+}]")), "[{+}]".replace("{+}", "{}").len());
}

#[test]
fn combination_fills_the_trailing_slot() {
    assert_eq!(combine(&b("{}[{}"), &b("{}]")), b("{}[{}]"));
    assert_eq!(combine(&b("{}+{}"), &b("{}*{}")), b("{}+{}*{}"));
}

#[test]
fn infix_combinations_try_each_prefix() {
    // Both sides infix: every cut inside the inner pattern, shortest first.
    assert_eq!(combination_candidates(&b("{}+{}"), &b("{}*{}")), vec![b("{}+{}")]);
    assert_eq!(
        combination_candidates(&b("{}+{}"), &b("{}==={}")),
        vec![b("{}+{}"), b("{}+{}="), b("{}+{}==")]
    );
    assert_eq!(combination_candidates(&b("{}+{}"), &b("{}{}")), Vec::<Vec<u8>>::new());
    // Not both infix: the whole combination.
    assert_eq!(combination_candidates(&b("{}[{}"), &b("{}]")), vec![b("{}[{}]")]);
    assert_eq!(combination_candidates(&b("-{}"), &b("{}*{}")), vec![b("-{}*{}")]);
}

#[test]
fn candidates_need_room_and_character_boundaries() {
    assert!(candidates_can_be_formed(&b("{}+{}"), &b("{}*{}")));
    assert!(candidates_can_be_formed(&b("{}+{}"), &b("{}{}")));
    assert!(!candidates_can_be_formed(&b("{}+{}"), &b("{}")));
    assert!(!candidates_can_be_formed(&b("{}+{}"), &b("{}é{}")));
    assert!(candidates_can_be_formed(&b("-{}"), &b("{}")));
}

#[test]
fn character_boundaries_follow_utf8() {
    let s = b("aé");
    assert!(is_char_boundary(&s, 0));
    assert!(is_char_boundary(&s, 1));
    assert!(!is_char_boundary(&s, 2));
    assert!(is_char_boundary(&s, 3));
    assert!(!is_char_boundary(&s, 4));
    for i in 0..=4 {
        assert_eq!(is_char_boundary(&s, i), "aé".is_char_boundary(i));
    }
}

#[test]
fn remainder_keeps_a_slot_for_the_front() {
    assert_eq!(remainder_of(&b("{}+{}*{}"), &b("{}+{}")), b("{}*{}"));
    // The combination holds a plain slot where the found pattern has a spread one.
    assert_eq!(remainder_of(&b("{}[{}]"), &b("{}[{+}")), b("{}]"));
    assert_eq!(remainder_of(&b("{}[{+}]"), &b("{}[{+}")), b("{}}]"));
    assert_eq!(remainder_of(&b("{}+{}"), &b("{}+{}")), b("{}"));
}
