use brfk::instructions::Instruction;
use brfk::instructions::ParseError;
use brfk::instructions::parse_code;

#[test]
fn unmatched_open_is_rejected() {
    assert_eq!(
        parse_code(String::from("["), false),
        Err(ParseError::UnmatchedJump)
    );
}

#[test]
fn unmatched_close_is_rejected() {
    assert_eq!(
        parse_code(String::from("]"), false),
        Err(ParseError::UnmatchedJump)
    );
}

#[test]
fn unclosed_nested_open_is_rejected() {
    assert_eq!(
        parse_code(String::from("[[]"), false),
        Err(ParseError::UnmatchedJump)
    );
}

#[test]
fn extra_close_is_rejected() {
    assert_eq!(
        parse_code(String::from("[]]"), false),
        Err(ParseError::UnmatchedJump)
    );
}

#[test]
fn close_aborts_scan_immediately() {
    // The unmatched `]` aborts the scan: the unclosed `[` after it does not
    // matter for the verdict, which is already failure.
    assert_eq!(
        parse_code(String::from("]["), false),
        Err(ParseError::UnmatchedJump)
    );
}

#[test]
fn empty_source_parses_to_empty_program() {
    assert_eq!(parse_code(String::new(), false), Ok(vec![]));
}

#[test]
fn nested_brackets_succeed() {
    assert!(parse_code(String::from("[[]]"), false).is_ok());
}

#[test]
fn adjacent_brackets_succeed() {
    assert!(parse_code(String::from("[][]"), false).is_ok());
}

#[test]
fn nested_jump_targets_are_resolved() {
    let ins = parse_code(String::from("[[]]"), false).unwrap();
    assert_eq!(
        ins,
        vec![
            Instruction::JmpFwd(3),
            Instruction::JmpFwd(2),
            Instruction::JmpBk(1),
            Instruction::JmpBk(0),
        ]
    );
}

#[test]
fn nested_adjacent_jump_targets_are_resolved() {
    let ins = parse_code(String::from("[[]][]"), false).unwrap();
    assert_eq!(
        ins,
        vec![
            Instruction::JmpFwd(3),
            Instruction::JmpFwd(2),
            Instruction::JmpBk(1),
            Instruction::JmpBk(0),
            Instruction::JmpFwd(5),
            Instruction::JmpBk(4),
        ]
    );
}

#[test]
fn comment_characters_are_ignored() {
    let with_comments = parse_code(String::from("a+bc,"), false).unwrap();
    let plain = parse_code(String::from("+,"), false).unwrap();
    assert_eq!(with_comments, plain);
    assert_eq!(plain, vec![Instruction::IncVal, Instruction::Input]);
}

#[test]
fn extended_symbols_are_comments_without_the_flag() {
    assert_eq!(parse_code(String::from("@$!}{~^&|"), false), Ok(vec![]));
}

#[test]
fn extended_symbols_parse_with_the_flag() {
    let ins = parse_code(String::from("@$!}{~^&|"), true).unwrap();
    assert_eq!(
        ins,
        vec![
            Instruction::Stop,
            Instruction::Store,
            Instruction::Retr,
            Instruction::Rshift,
            Instruction::Lshift,
            Instruction::Not,
            Instruction::Xor,
            Instruction::And,
            Instruction::Or,
        ]
    );
}

#[test]
fn basic_symbols_parse_in_order() {
    let ins = parse_code(String::from("><+-.,"), false).unwrap();
    assert_eq!(
        ins,
        vec![
            Instruction::IncPtr,
            Instruction::DecPtr,
            Instruction::IncVal,
            Instruction::DecVal,
            Instruction::Output,
            Instruction::Input,
        ]
    );
}

#[test]
fn parse_error_message_names_the_cause() {
    let e = parse_code(String::from("["), false).unwrap_err();
    assert_eq!(
        e.message(),
        "Could not parse code due to unmatched jumps ([ and ])."
    );
}

#[test]
fn symbols_round_trip_the_vocabulary() {
    assert_eq!(Instruction::IncPtr.symbol(), '>');
    assert_eq!(Instruction::DecPtr.symbol(), '<');
    assert_eq!(Instruction::IncVal.symbol(), '+');
    assert_eq!(Instruction::DecVal.symbol(), '-');
    assert_eq!(Instruction::Output.symbol(), '.');
    assert_eq!(Instruction::Input.symbol(), ',');
    assert_eq!(Instruction::JmpFwd(7).symbol(), '[');
    assert_eq!(Instruction::JmpBk(7).symbol(), ']');
    assert_eq!(Instruction::Stop.symbol(), '@');
    assert_eq!(Instruction::Store.symbol(), '$');
    assert_eq!(Instruction::Retr.symbol(), '!');
    assert_eq!(Instruction::Rshift.symbol(), '}');
    assert_eq!(Instruction::Lshift.symbol(), '{');
    assert_eq!(Instruction::Not.symbol(), '~');
    assert_eq!(Instruction::Xor.symbol(), '^');
    assert_eq!(Instruction::And.symbol(), '&');
    assert_eq!(Instruction::Or.symbol(), '|');
}
