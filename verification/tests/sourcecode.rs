use rsbrainfuck::error::ParseError;
use rsbrainfuck::sourcecode::BfCommand::{Add, Loop, Move, Print, Read};
use rsbrainfuck::sourcecode::{extract_loop_code, find_matching_closing_bracket, SourceCode};

const NEG1: u8 = u8::MAX;

#[test]
fn test_from_str() {
    let source = "+-->><<<+++---";
    let code = source.parse::<SourceCode>();

    let expected = Ok(SourceCode(vec![Add(NEG1), Move(-1), Add(0)]));

    assert_eq!(code, expected);
}

#[test]
fn test_from_str_err() {
    let code = "<<+++\nD\n+++".parse::<SourceCode>();

    let expected = "<<++++++".parse::<SourceCode>();

    assert_eq!(code, expected);
}

#[test]
fn test_find_matching_closing_bracket() {
    let text = "0[23]5[[8]][";
    assert_eq!(
        find_matching_closing_bracket(text, 0).map_err(|e| e.message()),
        Err(String::from("No opening bracket at index 0."))
    );
    assert_eq!(find_matching_closing_bracket(text, 1), Ok(4));
    assert_eq!(find_matching_closing_bracket(text, 6), Ok(10));
    assert_eq!(find_matching_closing_bracket(text, 7), Ok(9));
    assert_eq!(
        find_matching_closing_bracket(text, 11).map_err(|e| e.message()),
        Err(String::from("No matching bracket was found for '[' at position 11."))
    );
}

#[test]
fn test_ectract_loop_code() {
    let code = ".[.[+ ] ].".parse::<SourceCode>();

    let expected: Result<SourceCode, String> = Ok(SourceCode(vec![
        Print,
        Loop(SourceCode(vec![Print, Loop(SourceCode(vec![Add(1)]))])),
        Print,
    ]));

    assert_eq!(code, expected);
}

#[test]
fn test_loop_no_opening_bracket() {
    let code = "<<+++].".parse::<SourceCode>();

    let expected = Err(String::from(
        "No matching bracket was found for ']' at position 5.",
    ));

    assert_eq!(code, expected);
}

#[test]
fn test_loop_no_closing_bracket() {
    let code = "<<+++[.".parse::<SourceCode>();

    let expected = Err(String::from(
        "No matching bracket was found for '[' at position 5.",
    ));

    assert_eq!(code, expected);
}

#[test]
fn test_from_str_loop() {
    let code = "+[--]+".parse::<SourceCode>();

    let expected = Ok(SourceCode(vec![
        Add(1),
        Loop(SourceCode(vec![Add(NEG1 - 1)])),
        Add(1),
    ]));

    assert_eq!(code, expected);
}

#[test]
fn test_from_str_many_loops() {
    let code1 = "+[--]++[--]+".parse::<SourceCode>();

    let expected1 = Ok(SourceCode(vec![
        Add(1),
        Loop(SourceCode(vec![Add(NEG1 - 1)])),
        Add(2),
        Loop(SourceCode(vec![Add(NEG1 - 1)])),
        Add(1),
    ]));

    let code2 = "+[-[.-]+].".parse::<SourceCode>();

    let expected2 = Ok(SourceCode(vec![
        Add(1),
        Loop(SourceCode(vec![
            Add(NEG1),
            Loop(SourceCode(vec![Print, Add(NEG1)])),
            Add(1),
        ])),
        Print,
    ]));

    assert_eq!(code1, expected1);
    assert_eq!(code2, expected2);
}

#[test]
fn test_from_str_empty_loop() {
    let code = "[]".parse::<SourceCode>();

    let expected = Ok(SourceCode(vec![Loop(SourceCode(vec![]))]));

    assert_eq!(code, expected);
}

#[test]
fn parse_names_the_bracket_that_is_wrong() {
    assert_eq!(SourceCode::parse("<<+++]."), Err(ParseError::UnmatchedClose(5)));
    assert_eq!(SourceCode::parse("<<+++[."), Err(ParseError::UnmatchedOpen(5)));
    assert_eq!(SourceCode::parse("]"), Err(ParseError::UnmatchedClose(0)));
    assert_eq!(SourceCode::parse("["), Err(ParseError::UnmatchedOpen(0)));
    assert_eq!(SourceCode::parse("[]]"), Err(ParseError::UnmatchedClose(2)));
    assert_eq!(SourceCode::parse("[[]"), Err(ParseError::UnmatchedOpen(0)));
    assert_eq!(SourceCode::parse("[][]["), Err(ParseError::UnmatchedOpen(4)));
    assert_eq!(SourceCode::parse("+[-]]+["), Err(ParseError::UnmatchedClose(4)));
    assert_eq!(SourceCode::parse("+[+[+]"), Err(ParseError::UnmatchedOpen(1)));
}

#[test]
fn positions_count_characters() {
    assert_eq!(SourceCode::parse("é€]"), Err(ParseError::UnmatchedClose(2)));
    assert_eq!(SourceCode::parse("é€[+"), Err(ParseError::UnmatchedOpen(2)));
    assert_eq!(find_matching_closing_bracket("é[€]", 1), Ok(3));
    assert_eq!(
        "é[€+]ü.".parse::<SourceCode>(),
        Ok(SourceCode(vec![Loop(SourceCode(vec![Add(1)])), Print]))
    );
}

#[test]
fn error_messages() {
    assert_eq!(ParseError::NoOpeningBracket(0).message(), "No opening bracket at index 0.");
    assert_eq!(ParseError::NoOpeningBracket(7).message(), "No opening bracket at index 7.");
    assert_eq!(
        ParseError::UnmatchedOpen(10).message(),
        "No matching bracket was found for '[' at position 10."
    );
    assert_eq!(
        ParseError::UnmatchedClose(90210).message(),
        "No matching bracket was found for ']' at position 90210."
    );
    assert_eq!(
        ParseError::UnmatchedClose(usize::MAX).message(),
        format!("No matching bracket was found for ']' at position {}.", usize::MAX)
    );
    assert_eq!(ParseError::UnmatchedOpen(1234567890).position(), 1234567890);
    assert_eq!(ParseError::UnmatchedClose(5).position(), 5);
    assert_eq!(ParseError::NoOpeningBracket(3).position(), 3);
}

#[test]
fn bracket_search_edge_cases() {
    assert_eq!(find_matching_closing_bracket("", 0), Err(ParseError::NoOpeningBracket(0)));
    assert_eq!(find_matching_closing_bracket("[]", 2), Err(ParseError::NoOpeningBracket(2)));
    assert_eq!(find_matching_closing_bracket("[]", 1), Err(ParseError::NoOpeningBracket(1)));
    assert_eq!(find_matching_closing_bracket("[]", 0), Ok(1));
    assert_eq!(find_matching_closing_bracket("[[]", 0), Err(ParseError::UnmatchedOpen(0)));
    assert_eq!(find_matching_closing_bracket("[[]", 1), Ok(2));
    assert_eq!(find_matching_closing_bracket("[[][]]]", 0), Ok(5));
    assert_eq!(find_matching_closing_bracket("][", 1), Err(ParseError::UnmatchedOpen(1)));
}

#[test]
fn extract_loop_code_gives_the_body_and_the_span() {
    assert_eq!(
        extract_loop_code(".[.[+ ] ].", 1),
        Ok((SourceCode(vec![Print, Loop(SourceCode(vec![Add(1)]))]), 7))
    );
    assert_eq!(extract_loop_code(".[.[+ ] ].", 3), Ok((SourceCode(vec![Add(1)]), 3)));
    assert_eq!(extract_loop_code("[]", 0), Ok((SourceCode(vec![]), 1)));
    assert_eq!(extract_loop_code(".[", 0), Err(ParseError::NoOpeningBracket(0)));
    assert_eq!(extract_loop_code(".[", 1), Err(ParseError::UnmatchedOpen(1)));
    assert_eq!(extract_loop_code(".[", 2), Err(ParseError::NoOpeningBracket(2)));
}

#[test]
fn moves_fold_into_one_node() {
    assert_eq!(SourceCode::parse(">"), Ok(SourceCode(vec![Move(1)])));
    assert_eq!(SourceCode::parse("<"), Ok(SourceCode(vec![Move(-1)])));
    assert_eq!(SourceCode::parse(">>><"), Ok(SourceCode(vec![Move(2)])));
    assert_eq!(SourceCode::parse("<><<><"), Ok(SourceCode(vec![Move(-2)])));
    assert_eq!(SourceCode::parse("><"), Ok(SourceCode(vec![Move(0)])));
    let long = ">".repeat(1000) + &"<".repeat(1500);
    assert_eq!(SourceCode::parse(&long), Ok(SourceCode(vec![Move(-500)])));
}

#[test]
fn adds_fold_into_one_node_modulo_256() {
    assert_eq!(SourceCode::parse("+"), Ok(SourceCode(vec![Add(1)])));
    assert_eq!(SourceCode::parse("-"), Ok(SourceCode(vec![Add(255)])));
    assert_eq!(SourceCode::parse("+-"), Ok(SourceCode(vec![Add(0)])));
    assert_eq!(SourceCode::parse("--"), Ok(SourceCode(vec![Add(254)])));
    assert_eq!(SourceCode::parse(&"+".repeat(256)), Ok(SourceCode(vec![Add(0)])));
    assert_eq!(SourceCode::parse(&"+".repeat(300)), Ok(SourceCode(vec![Add(44)])));
    assert_eq!(SourceCode::parse(&"-".repeat(257)), Ok(SourceCode(vec![Add(255)])));
}

#[test]
fn folding_stops_at_other_commands_and_not_at_comments() {
    assert_eq!(SourceCode::parse(""), Ok(SourceCode(vec![])));
    assert_eq!(SourceCode::parse("hello world"), Ok(SourceCode(vec![])));
    assert_eq!(SourceCode::parse("+ a\n+"), Ok(SourceCode(vec![Add(2)])));
    assert_eq!(SourceCode::parse("> x <"), Ok(SourceCode(vec![Move(0)])));
    assert_eq!(
        SourceCode::parse("+>+<-.-,,+"),
        Ok(SourceCode(vec![
            Add(1),
            Move(1),
            Add(1),
            Move(-1),
            Add(255),
            Print,
            Add(255),
            Read,
            Read,
            Add(1)
        ]))
    );
    assert_eq!(
        SourceCode::parse("+[]+>[]>"),
        Ok(SourceCode(vec![
            Add(1),
            Loop(SourceCode(vec![])),
            Add(1),
            Move(1),
            Loop(SourceCode(vec![])),
            Move(1)
        ]))
    );
    assert_eq!(
        SourceCode::parse("+[+]"),
        Ok(SourceCode(vec![Add(1), Loop(SourceCode(vec![Add(1)]))]))
    );
}

#[test]
fn parsing_twice_gives_the_same_program() {
    let text = "++[>+<-]>. a comment [[-]]";
    assert_eq!(SourceCode::parse(text), SourceCode::parse(text));
    assert_eq!(text.parse::<SourceCode>(), Ok(SourceCode::parse(text).unwrap()));
}
