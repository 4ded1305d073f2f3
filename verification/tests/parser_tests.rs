use tapevm::parser::{
    decode_plain, is_tolerated, parse, parse_with, Bracket, Command, Jump, ParseError, Policy,
};

fn src(s: &str) -> Vec<u8> {
    s.as_bytes().to_vec()
}

#[test]
fn empty_source_is_rejected() {
    assert_eq!(parse(Vec::new()), Err(ParseError::EmptyProgram));
}

#[test]
fn lone_open_bracket_is_unbalanced() {
    assert_eq!(parse(src("[")), Err(ParseError::UnbalancedBrackets(Bracket::Open)));
}

#[test]
fn lone_close_bracket_is_unbalanced() {
    assert_eq!(parse(src("]")), Err(ParseError::UnbalancedBrackets(Bracket::Close)));
}

#[test]
fn close_before_open_reports_the_close() {
    assert_eq!(parse(src("+][")), Err(ParseError::UnbalancedBrackets(Bracket::Close)));
    assert_eq!(parse(src("[]]")), Err(ParseError::UnbalancedBrackets(Bracket::Close)));
}

#[test]
fn unclosed_nested_bracket_reports_the_open() {
    assert_eq!(parse(src("[[]")), Err(ParseError::UnbalancedBrackets(Bracket::Open)));
    assert_eq!(parse(src("[+[-]")), Err(ParseError::UnbalancedBrackets(Bracket::Open)));
}

#[test]
fn plain_commands_map_one_to_one() {
    assert_eq!(
        parse(src("><+-.,")),
        Ok(vec![
            Command::IncrementPtr,
            Command::DecrementPtr,
            Command::IncrementValue,
            Command::DecrementValue,
            Command::Output,
            Command::Input,
        ])
    );
}

#[test]
fn decode_plain_knows_six_bytes() {
    assert_eq!(decode_plain(b'>'), Some(Command::IncrementPtr));
    assert_eq!(decode_plain(b'<'), Some(Command::DecrementPtr));
    assert_eq!(decode_plain(b'+'), Some(Command::IncrementValue));
    assert_eq!(decode_plain(b'-'), Some(Command::DecrementValue));
    assert_eq!(decode_plain(b'.'), Some(Command::Output));
    assert_eq!(decode_plain(b','), Some(Command::Input));
    assert_eq!(decode_plain(b'['), None);
    assert_eq!(decode_plain(b']'), None);
    assert_eq!(decode_plain(b' '), None);
}

#[test]
fn empty_loop_body_is_valid() {
    assert_eq!(
        parse(src("[]")),
        Ok(vec![
            Command::JumpForward(Jump { index: 0, pair_index: 1 }),
            Command::JumpBackward(Jump { index: 1, pair_index: 0 }),
        ])
    );
}

#[test]
fn adjacent_loops_pair_separately() {
    assert_eq!(
        parse(src("[][]")),
        Ok(vec![
            Command::JumpForward(Jump { index: 0, pair_index: 1 }),
            Command::JumpBackward(Jump { index: 1, pair_index: 0 }),
            Command::JumpForward(Jump { index: 2, pair_index: 3 }),
            Command::JumpBackward(Jump { index: 3, pair_index: 2 }),
        ])
    );
}

#[test]
fn nested_brackets_resolve_innermost_first() {
    assert_eq!(
        parse(src("+[[-]>]")),
        Ok(vec![
            Command::IncrementValue,
            Command::JumpForward(Jump { index: 1, pair_index: 6 }),
            Command::JumpForward(Jump { index: 2, pair_index: 4 }),
            Command::DecrementValue,
            Command::JumpBackward(Jump { index: 4, pair_index: 2 }),
            Command::IncrementPtr,
            Command::JumpBackward(Jump { index: 6, pair_index: 1 }),
        ])
    );
}

#[test]
fn comments_are_skipped_and_do_not_count_as_positions() {
    assert_eq!(
        parse(src("a [ b - c ] d\n")),
        Ok(vec![
            Command::JumpForward(Jump { index: 0, pair_index: 2 }),
            Command::DecrementValue,
            Command::JumpBackward(Jump { index: 2, pair_index: 0 }),
        ])
    );
}

#[test]
fn source_of_comments_only_is_an_empty_program() {
    assert_eq!(parse(src("hello world")), Ok(Vec::new()));
}

#[test]
fn every_pair_points_at_each_other_in_a_deep_nest() {
    let depth: usize = 200;
    let mut s = Vec::new();
    for _ in 0..depth {
        s.push(b'[');
    }
    for _ in 0..depth {
        s.push(b']');
    }
    let prog = parse(s).unwrap();
    assert_eq!(prog.len(), 2 * depth);
    for i in 0..depth {
        let j = 2 * depth - 1 - i;
        assert_eq!(prog[i], Command::JumpForward(Jump { index: i, pair_index: j }));
        assert_eq!(prog[j], Command::JumpBackward(Jump { index: j, pair_index: i }));
    }
}

#[test]
fn permissive_policy_is_plain_parsing() {
    assert_eq!(parse_with(src("a+b"), Policy::Permissive), Ok(vec![Command::IncrementValue]));
    assert_eq!(parse_with(Vec::new(), Policy::Permissive), Err(ParseError::EmptyProgram));
    assert_eq!(
        parse_with(src("x]"), Policy::Permissive),
        Err(ParseError::UnbalancedBrackets(Bracket::Close))
    );
}

#[test]
fn strict_policy_rejects_other_bytes() {
    assert_eq!(parse_with(src("a+b"), Policy::Strict), Err(ParseError::InvalidCharacter));
    assert_eq!(parse_with(src("+]x"), Policy::Strict), Err(ParseError::InvalidCharacter));
    assert_eq!(parse_with(vec![0u8], Policy::Strict), Err(ParseError::InvalidCharacter));
}

#[test]
fn strict_policy_tolerates_whitespace() {
    assert_eq!(
        parse_with(src(" [\t-\r\n] "), Policy::Strict),
        Ok(vec![
            Command::JumpForward(Jump { index: 0, pair_index: 2 }),
            Command::DecrementValue,
            Command::JumpBackward(Jump { index: 2, pair_index: 0 }),
        ])
    );
}

#[test]
fn strict_policy_still_reports_empty_and_unbalanced() {
    assert_eq!(parse_with(Vec::new(), Policy::Strict), Err(ParseError::EmptyProgram));
    assert_eq!(
        parse_with(src("[ ["), Policy::Strict),
        Err(ParseError::UnbalancedBrackets(Bracket::Open))
    );
    assert_eq!(
        parse_with(src("] ["), Policy::Strict),
        Err(ParseError::UnbalancedBrackets(Bracket::Close))
    );
}

#[test]
fn tolerated_bytes_are_commands_and_whitespace() {
    for b in 0..=255u8 {
        let want = b"><+-.,[] \t\r\n".contains(&b);
        assert_eq!(is_tolerated(b), want);
    }
}
