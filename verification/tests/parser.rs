use hoars::consumer::{AccnameInfo, HoaConsumer};
use hoars::lexer::token::{PositionedToken, Token};
use hoars::lexer::{LexerError, LexerErrorKind};
use hoars::parser::expression::{
    AcceptanceCondition, AcceptanceIdent, BooleanAtom, BooleanExpression,
};
use hoars::parser::{expect, HoaParser, ParserError};

struct PrintConsumer {}

impl HoaConsumer for PrintConsumer {
    fn notify_header_start(&mut self, version: &String) {
        println!("header start: {}", version);
    }
    fn set_number_of_states(&mut self, count: usize) {
        println!("states: {}", count);
    }
    fn add_start_states(&mut self, states: Vec<usize>) {
        println!("start: {:?}", states);
    }
    fn set_aps(&mut self, names: Vec<String>) {
        println!("aps: {:?}", names);
    }
    fn add_alias(&mut self, name: &String, expr: &BooleanExpression) {
        println!("alias: {} = {}", name, expr.to_string());
    }
    fn set_acceptance_condition(&mut self, sets: usize, expr: &AcceptanceCondition) {
        println!("acceptance: {} {}", sets, expr.to_string());
    }
    fn provide_acceptance_name(&mut self, name: &String, extra_info: &Vec<AccnameInfo>) {
        println!("acc-name: {} {:?}", name, extra_info);
    }
    fn set_tool(&mut self, info: Vec<String>) {
        println!("tool: {:?}", info);
    }
    fn set_name(&mut self, name: &String) {
        println!("name: {}", name);
    }
    fn add_properties(&mut self, props: Vec<String>) {
        println!("properties: {:?}", props);
    }
    fn add_state(
        &mut self,
        number: usize,
        name: Option<&String>,
        label: Option<&BooleanExpression>,
        acc_sig: Option<&Vec<usize>>,
    ) {
        println!(
            "state: {} {:?} {:?} {:?}",
            number,
            name,
            label.map(|l| l.to_string()),
            acc_sig
        );
    }
    fn add_edge_with_label(
        &mut self,
        state: usize,
        label: &BooleanExpression,
        targets: &Vec<usize>,
        acc_sig: Option<&Vec<usize>>,
    ) {
        println!(
            "edge: {} [{}] {:?} {:?}",
            state,
            label.to_string(),
            targets,
            acc_sig
        );
    }
    fn add_edge_implicit(
        &mut self,
        state: usize,
        targets: &Vec<usize>,
        acc_sig: Option<&Vec<usize>>,
    ) {
        println!("edge: {} {:?} {:?}", state, targets, acc_sig);
    }
    fn notify_end_of_state(&mut self, state: usize) {
        println!("end of state: {}", state);
    }
}

#[derive(Debug, PartialEq)]
enum Call {
    HeaderStart(String),
    NumberOfStates(usize),
    StartStates(Vec<usize>),
    Aps(Vec<String>),
    Alias(String, String),
    Acceptance(usize, String),
    AcceptanceName(String, Vec<AccnameInfo>),
    Tool(Vec<String>),
    Name(String),
    Properties(Vec<String>),
    State(usize, Option<String>, Option<String>, Option<Vec<usize>>),
    EdgeWithLabel(usize, String, Vec<usize>, Option<Vec<usize>>),
    EdgeImplicit(usize, Vec<usize>, Option<Vec<usize>>),
    EndOfState(usize),
}

struct Recorder {
    calls: Vec<Call>,
}

impl HoaConsumer for Recorder {
    fn notify_header_start(&mut self, version: &String) {
        self.calls.push(Call::HeaderStart(version.clone()));
    }
    fn set_number_of_states(&mut self, count: usize) {
        self.calls.push(Call::NumberOfStates(count));
    }
    fn add_start_states(&mut self, states: Vec<usize>) {
        self.calls.push(Call::StartStates(states));
    }
    fn set_aps(&mut self, names: Vec<String>) {
        self.calls.push(Call::Aps(names));
    }
    fn add_alias(&mut self, name: &String, expr: &BooleanExpression) {
        self.calls.push(Call::Alias(name.clone(), expr.to_string()));
    }
    fn set_acceptance_condition(&mut self, sets: usize, expr: &AcceptanceCondition) {
        self.calls.push(Call::Acceptance(sets, expr.to_string()));
    }
    fn provide_acceptance_name(&mut self, name: &String, extra_info: &Vec<AccnameInfo>) {
        self.calls
            .push(Call::AcceptanceName(name.clone(), extra_info.clone()));
    }
    fn set_tool(&mut self, info: Vec<String>) {
        self.calls.push(Call::Tool(info));
    }
    fn set_name(&mut self, name: &String) {
        self.calls.push(Call::Name(name.clone()));
    }
    fn add_properties(&mut self, props: Vec<String>) {
        self.calls.push(Call::Properties(props));
    }
    fn add_state(
        &mut self,
        number: usize,
        name: Option<&String>,
        label: Option<&BooleanExpression>,
        acc_sig: Option<&Vec<usize>>,
    ) {
        self.calls.push(Call::State(
            number,
            name.cloned(),
            label.map(|l| l.to_string()),
            acc_sig.cloned(),
        ));
    }
    fn add_edge_with_label(
        &mut self,
        state: usize,
        label: &BooleanExpression,
        targets: &Vec<usize>,
        acc_sig: Option<&Vec<usize>>,
    ) {
        self.calls.push(Call::EdgeWithLabel(
            state,
            label.to_string(),
            targets.clone(),
            acc_sig.cloned(),
        ));
    }
    fn add_edge_implicit(
        &mut self,
        state: usize,
        targets: &Vec<usize>,
        acc_sig: Option<&Vec<usize>>,
    ) {
        self.calls
            .push(Call::EdgeImplicit(state, targets.clone(), acc_sig.cloned()));
    }
    fn notify_end_of_state(&mut self, state: usize) {
        self.calls.push(Call::EndOfState(state));
    }
}

fn parse(input: &str) -> (Vec<Call>, Result<(), ParserError>) {
    let mut recorder = Recorder { calls: Vec::new() };
    let result = HoaParser::new(&mut recorder, input.as_bytes()).automaton();
    (recorder.calls, result)
}

fn strings(items: &[&str]) -> Vec<String> {
    items.iter().map(|s| s.to_string()).collect()
}

fn missing(expected: &str, context: &str) -> ParserError {
    ParserError::MissingToken {
        expected: expected.to_string(),
        context: context.to_string(),
    }
}

fn mismatching(expected: &str, actual: &str, context: &str) -> ParserError {
    ParserError::MismatchingToken {
        expected: expected.to_string(),
        actual: actual.to_string(),
        context: context.to_string(),
    }
}

#[test]
fn real_automaton_test() {
    let contents = b"HOA: v1\nStates: 2\nAlias: @a 0\nAlias: @ab 0 & !1\nStart: \
        0\nacc-name: Rabin 1\nAcceptance: 2 (Fin(0) & Inf(1))\nAP: 2 \"a\" \"b\"\n--BODY--\nState: \
        0 \"a U b\"   /* An example of named state */\n  [0 & !1] 0 {0}\n  [1] 1 {0}\nState: 1\n  \
        [t] 1 {1}\n--END--\n\n";
    let mut consumer = PrintConsumer {};
    let mut hp = HoaParser::new(&mut consumer, contents as &[u8]);

    let result = hp.automaton();
    match &result {
        Ok(_) => println!("hooray"),
        Err(err) => println!("{}", err.to_string()),
    }
    // the comment in the input is no token of the format
    assert_eq!(
        result,
        Err(ParserError::LexingError {
            message: "unrecognized character at line 9, column 19".to_string()
        })
    );
}

#[test]
fn trait_test() {
    let v = vec![1, 2, 3];
    let mut it = v.iter().peekable();
    println!("{:?}", it.peek().unwrap());
    println!("{:?}", it.peek().unwrap());
}

#[test]
fn real_automaton_without_the_comment() {
    let contents = "HOA: v1\nStates: 2\nAlias: @a 0\nAlias: @ab 0 & !1\nStart: \
        0\nacc-name: Rabin 1\nAcceptance: 2 (Fin(0) & Inf(1))\nAP: 2 \"a\" \"b\"\n--BODY--\nState: \
        0 \"a U b\"\n  [0 & !1] 0 {0}\n  [1] 1 {0}\nState: 1\n  \
        [t] 1 {1}\n--END--\n\n";
    let (calls, result) = parse(contents);
    assert_eq!(result, Ok(()));
    assert_eq!(
        calls,
        vec![
            Call::HeaderStart("v1".to_string()),
            Call::NumberOfStates(2),
            Call::Alias("a".to_string(), "0".to_string()),
            Call::Alias("ab".to_string(), "(0 & !1)".to_string()),
            Call::StartStates(vec![0]),
            Call::AcceptanceName("Rabin".to_string(), vec![AccnameInfo::IntegerValue(1)]),
            Call::Acceptance(2, "(Fin(0) & Inf(1))".to_string()),
            Call::Aps(strings(&["a", "b"])),
            Call::State(0, Some("a U b".to_string()), None, None),
            Call::EdgeWithLabel(0, "(0 & !1)".to_string(), vec![0], Some(vec![0])),
            Call::EdgeWithLabel(0, "1".to_string(), vec![1], Some(vec![0])),
            Call::EndOfState(0),
            Call::State(1, None, None, None),
            Call::EdgeWithLabel(1, "t".to_string(), vec![1], Some(vec![1])),
            Call::EndOfState(1),
        ]
    );
}

#[test]
fn minimal_automaton_call_sequence() {
    let (calls, result) = parse(
        "HOA: v1\nStates: 1\nStart: 0\nAP: 1 \"a\"\nAcceptance: 1 Inf(0)\n--BODY--\nState: 0 [0] 0 {0}\n--END--",
    );
    assert_eq!(result, Ok(()));
    assert_eq!(
        calls,
        vec![
            Call::HeaderStart("v1".to_string()),
            Call::NumberOfStates(1),
            Call::StartStates(vec![0]),
            Call::Aps(strings(&["a"])),
            Call::Acceptance(1, "Inf(0)".to_string()),
            Call::State(0, None, None, None),
            Call::EdgeWithLabel(0, "0".to_string(), vec![0], Some(vec![0])),
            Call::EndOfState(0),
        ]
    );
}

#[test]
fn zero_atomic_propositions_are_refused() {
    for rest in [
        "",
        "\"a\"",
        "\"a\" \"b\" Acceptance: 1 Inf(0) --BODY-- --END--",
        "--BODY-- State: 0 --END--",
        "17 ( !",
    ] {
        let input = format!("HOA: v1 States: 3 AP: 0 {}", rest);
        let (calls, result) = parse(&input);
        assert_eq!(result, Err(ParserError::ZeroAtomicPropositions));
        assert_eq!(
            calls,
            vec![Call::HeaderStart("v1".to_string()), Call::NumberOfStates(3)]
        );
    }
    assert_eq!(
        parse("HOA: v1 AP: 0").1.unwrap_err().to_string(),
        "At least one atomic proposition is needed"
    );
}

#[test]
fn missing_end_is_a_missing_token() {
    let expected = Err(missing("--END--", "end of automaton"));
    let (calls, result) = parse(
        "HOA: v1\nStates: 1\nStart: 0\nAP: 1 \"a\"\nAcceptance: 1 Inf(0)\n--BODY--\nState: 0 [0] 0 {0}\n",
    );
    assert_eq!(result, expected);
    assert_eq!(calls.len(), 8);
    assert_eq!(calls.last(), Some(&Call::EndOfState(0)));
    assert_eq!(parse("HOA: v1 --BODY--").1, expected);
    assert_eq!(parse("HOA: v1 --BODY-- State: 1").1, expected);
    assert_eq!(
        parse("HOA: v1 --BODY--").1.unwrap_err().to_string(),
        "Necessary token --END-- is missing in end of automaton"
    );
}

#[test]
fn something_else_in_place_of_end_is_a_mismatch() {
    assert_eq!(
        parse("HOA: v1 --BODY-- 3 --END--").1,
        Err(mismatching("--END--", "3", "end of automaton"))
    );
    assert_eq!(
        parse("HOA: v1 --BODY-- --ABORT--").1,
        Err(mismatching("--END--", "--ABORT--", "end of automaton"))
    );
    assert_eq!(
        parse("HOA: v1 --BODY-- --END-- x").1,
        Err(mismatching("EOF", "'x'", "end of file"))
    );
    assert_eq!(
        parse("HOA: v1 --BODY-- --END-- --END--")
            .1
            .unwrap_err()
            .to_string(),
        "Syntax error, expected token EOF but got --END-- in end of file"
    );
}

#[test]
fn forward_and_undefined_alias_references_are_accepted() {
    let (calls, result) = parse(
        "HOA: v1 Alias: @a @b & !@c Alias: @b 0 AP: 1 \"p\" --BODY-- State: 0 [@later] 0 --END--",
    );
    assert_eq!(result, Ok(()));
    assert_eq!(
        calls,
        vec![
            Call::HeaderStart("v1".to_string()),
            Call::Alias("a".to_string(), "(@b & !@c)".to_string()),
            Call::Alias("b".to_string(), "0".to_string()),
            Call::Aps(strings(&["p"])),
            Call::State(0, None, None, None),
            Call::EdgeWithLabel(0, "@later".to_string(), vec![0], None),
            Call::EndOfState(0),
        ]
    );
}

#[test]
fn lex_errors_are_reported_before_any_call() {
    let (calls, result) = parse("HOA: v1 States: 1 --BODY-- --END-- -");
    assert_eq!(
        result,
        Err(ParserError::LexingError {
            message: "tokens need two dashes (--) at line 0, column 35".to_string()
        })
    );
    assert_eq!(calls, vec![]);
    assert_eq!(result.unwrap_err().to_string(), "unexpected end");
    assert_eq!(
        ParserError::from(LexerError {
            kind: LexerErrorKind::InvalidInteger,
            line: 2,
            col: 3
        }),
        ParserError::LexingError {
            message: "error while parsing integer at line 2, column 3".to_string()
        }
    );
}

#[test]
fn start_of_the_header() {
    assert_eq!(parse("").1, Err(missing("HOA: ", "HOA header extraction")));
    assert_eq!(
        parse("States: 1").1,
        Err(mismatching("HOA: ", "States: ", "HOA header extraction"))
    );
    assert_eq!(parse("HOA:").1, Err(missing("''", "HOA version")));
    assert_eq!(
        parse("HOA: 1").1,
        Err(mismatching("''", "1", "HOA version"))
    );
    let (calls, result) = parse("HOA: v1");
    assert_eq!(result, Err(missing("--BODY--", "body token")));
    assert_eq!(calls, vec![Call::HeaderStart("v1".to_string())]);
}

#[test]
fn header_items() {
    let (calls, result) = parse(
        "HOA: v1 tool: \"ltl2dstar\" \"0.5.2\" name: \"GFa\" properties: deterministic complete \
         Start: 0 & 1 Start: 2 3 4 acc-name: parity min 3 t f x-vendor: 1 \"two\" three --BODY-- --END--",
    );
    assert_eq!(
        result,
        Err(mismatching("--BODY--", "&", "body token")),
        "a start state is followed by an integer or by the next header"
    );
    assert_eq!(
        calls,
        vec![
            Call::HeaderStart("v1".to_string()),
            Call::Tool(strings(&["ltl2dstar", "0.5.2"])),
            Call::Name("GFa".to_string()),
            Call::Properties(strings(&["deterministic", "complete"])),
            Call::StartStates(vec![0]),
        ]
    );
    let (calls, result) = parse(
        "HOA: v1 tool: \"ltl2dstar\" 3 v2 @x name: \"GFa\" properties: \
         Start: 2 3 4 acc-name: parity min 3 t f x-vendor: 1 \"two\" three --BODY-- --END--",
    );
    assert_eq!(result, Ok(()));
    assert_eq!(
        calls,
        vec![
            Call::HeaderStart("v1".to_string()),
            Call::Tool(strings(&["ltl2dstar", "v2", "x"])),
            Call::Name("GFa".to_string()),
            Call::Properties(vec![]),
            Call::StartStates(vec![2, 3, 4]),
            Call::AcceptanceName(
                "parity".to_string(),
                vec![
                    AccnameInfo::StringValue("min".to_string()),
                    AccnameInfo::IntegerValue(3),
                    AccnameInfo::BooleanValue(true),
                    AccnameInfo::BooleanValue(false),
                ]
            ),
        ]
    );
}

#[test]
fn header_item_errors() {
    assert_eq!(
        parse("HOA: v1 States: x").1,
        Err(mismatching("0", "'x'", "state number extraction (int)"))
    );
    assert_eq!(
        parse("HOA: v1 States:").1,
        Err(missing("0", "state number extraction (int)"))
    );
    assert_eq!(
        parse("HOA: v1 Start: --BODY--").1,
        Err(mismatching("0", "--BODY--", "first initial state"))
    );
    assert_eq!(
        parse("HOA: v1 AP: \"a\"").1,
        Err(mismatching("0", "\"a\"", "num_aps"))
    );
    assert_eq!(
        parse("HOA: v1 AP: 2 \"a\" --BODY--").1,
        Err(mismatching("\"\"", "--BODY--", "ap extraction"))
    );
    assert_eq!(
        parse("HOA: v1 AP: 2 \"a\"").1,
        Err(missing("\"\"", "ap extraction"))
    );
    assert_eq!(
        parse("HOA: v1 AP: 1 \"a\" \"b\" --BODY--").1,
        Err(mismatching("--BODY--", "\"b\"", "body token"))
    );
    assert_eq!(
        parse("HOA: v1 Alias: a 0").1,
        Err(mismatching("@", "'a'", "alias_name"))
    );
    assert_eq!(
        parse("HOA: v1 Alias: @a --BODY--").1,
        Err(ParserError::UnexpectedEnd {
            message: "Unexpected end of input, expected parenteses or identifier".to_string()
        })
    );
    assert_eq!(
        parse("HOA: v1 Acceptance: Inf(0)").1,
        Err(mismatching("0", "'Inf'", "number of acceptance sets"))
    );
    assert_eq!(
        parse("HOA: v1 Acceptance: 1 Buchi(0)").1,
        Err(ParserError::UnknownToken {
            message: "Buchi".to_string()
        })
    );
    assert_eq!(
        parse("HOA: v1 Acceptance: 1 Buchi(0)")
            .1
            .unwrap_err()
            .to_string(),
        "Unexpected token Buchi"
    );
    assert_eq!(
        parse("HOA: v1 acc-name: 3").1,
        Err(mismatching("''", "3", "acceptance name extraction"))
    );
    assert_eq!(
        parse("HOA: v1 acc-name: Rabin \"x\"").1,
        Err(mismatching(
            "identifier, integer or boolean",
            "\"x\"",
            "acceptance name extraction"
        ))
    );
    assert_eq!(
        parse("HOA: v1 name: GFa").1,
        Err(mismatching("\"\"", "'GFa'", "token name info"))
    );
    assert_eq!(
        parse("HOA: v1 HOA: v1 --BODY--").1,
        Err(mismatching("--BODY--", "HOA: ", "body token"))
    );
    assert_eq!(
        parse("HOA: v1 State: 0").1,
        Err(mismatching("--BODY--", "State: ", "body token"))
    );
}

#[test]
fn states_and_edges() {
    let (calls, result) = parse(
        "HOA: v1 --BODY-- State: [0 | 1] 3 \"three\" {1 2} 4 5&6 {7} [t] 8 State: 9 {} 1 [!0] 2&3 --END--",
    );
    assert_eq!(result, Ok(()));
    assert_eq!(
        calls,
        vec![
            Call::HeaderStart("v1".to_string()),
            Call::State(
                3,
                Some("three".to_string()),
                Some("(0 | 1)".to_string()),
                Some(vec![1, 2])
            ),
            Call::EdgeWithLabel(3, "(0 | 1)".to_string(), vec![4], None),
            Call::EdgeWithLabel(3, "(0 | 1)".to_string(), vec![5, 6], Some(vec![7])),
            Call::EdgeWithLabel(3, "t".to_string(), vec![8], None),
            Call::EndOfState(3),
            Call::State(9, None, None, Some(vec![])),
            Call::EdgeImplicit(9, vec![1], None),
            Call::EdgeWithLabel(9, "!0".to_string(), vec![2, 3], None),
            Call::EndOfState(9),
        ]
    );
}

#[test]
fn state_block_errors() {
    let (calls, result) = parse("HOA: v1 --BODY-- State: \"a\" --END--");
    assert_eq!(
        result,
        Err(mismatching(
            "Integer (state identifier)",
            "\"a\"",
            "state extraction"
        ))
    );
    assert_eq!(calls, vec![Call::HeaderStart("v1".to_string())]);
    assert_eq!(
        parse("HOA: v1 --BODY-- State: --END--").1,
        Err(ParserError::MissingToken {
            expected: "Integer (state identifier)".to_string(),
            context: "state extraction".to_string()
        })
    );
    assert_eq!(
        parse("HOA: v1 --BODY-- State: [(0] 1 --END--").1,
        Err(ParserError::UnexpectedEnd {
            message: "Expected closing paren".to_string()
        })
    );
    assert_eq!(
        parse("HOA: v1 --BODY-- State: 0 {1 x} --END--").1,
        Err(mismatching("}", "'x'", "acceptance signature"))
    );
    let (calls, result) = parse("HOA: v1 --BODY-- State: 0 1 & --END--");
    assert_eq!(result, Err(missing("0", "state conjunction")));
    assert_eq!(
        calls,
        vec![
            Call::HeaderStart("v1".to_string()),
            Call::State(0, None, None, None)
        ]
    );
    let (calls, result) = parse("HOA: v1 --BODY-- State: 0 1 2 \"x\" --END--");
    assert_eq!(
        result,
        Err(mismatching("0", "\"x\"", "state conjunction"))
    );
    assert_eq!(
        calls,
        vec![
            Call::HeaderStart("v1".to_string()),
            Call::State(0, None, None, None),
            Call::EdgeImplicit(0, vec![1], None),
            Call::EdgeImplicit(0, vec![2], None),
        ]
    );
}

#[test]
fn signature_and_label_may_end_with_the_block() {
    let (calls, result) = parse("HOA: v1 --BODY-- State: 0 1 {2 3 State: 1 [0 --END--");
    assert_eq!(
        result,
        Err(ParserError::MissingToken {
            expected: "0".to_string(),
            context: "state conjunction".to_string()
        })
    );
    assert_eq!(
        calls,
        vec![
            Call::HeaderStart("v1".to_string()),
            Call::State(0, None, None, None),
            Call::EdgeImplicit(0, vec![1], Some(vec![2, 3])),
            Call::EndOfState(0),
            Call::State(1, None, None, None),
        ]
    );
}

#[test]
fn expect_tells_missing_from_mismatching() {
    let int = Token::TokenInt(7).at(1, 2);
    let eof = Token::TokenEof.at(3, 0);
    assert_eq!(expect(Token::TokenInt(0), Some(&int), "here"), Ok(&int));
    assert_eq!(
        expect(Token::TokenBody, Some(&int), "here"),
        Err(mismatching("--BODY--", "7", "here"))
    );
    assert_eq!(
        expect(Token::TokenBody, Some(&eof), "here"),
        Err(missing("--BODY--", "here"))
    );
    assert_eq!(
        expect(Token::TokenBody, None, "here"),
        Err(missing("--BODY--", "here"))
    );
    assert_eq!(expect(Token::TokenEof, Some(&eof), "here"), Ok(&eof));
    let positioned: PositionedToken = Token::TokenAnd.at(4, 5);
    assert_eq!((positioned.line, positioned.col), (4, 5));
    assert_eq!(positioned.token, Token::TokenAnd);
}

#[test]
fn atoms_in_parsed_expressions() {
    let mut recorder = Recorder { calls: Vec::new() };
    let result =
        HoaParser::new(&mut recorder, b"HOA: v1 Acceptance: 2 Fin(!0) | Inf(1) & t --BODY-- --END--")
            .automaton();
    assert_eq!(result, Ok(()));
    assert_eq!(
        recorder.calls[1],
        Call::Acceptance(2, "(Fin(!0) | (Inf(1) & t))".to_string())
    );
    let expected = AcceptanceCondition::Atom(AcceptanceIdent::FinNeg(0)).or(
        AcceptanceCondition::Atom(AcceptanceIdent::Inf(1))
            .and(AcceptanceCondition::BooleanValue(true)),
    );
    assert_eq!(expected.to_string(), "(Fin(!0) | (Inf(1) & t))");
    assert_eq!(
        BooleanExpression::from(BooleanAtom::bint(0)).to_string(),
        "0"
    );
}

#[test]
fn messages_of_the_other_errors() {
    assert_eq!(
        ParserError::ExpressionParsingError {
            expected: "a".to_string(),
            found: "b".to_string()
        }
        .to_string(),
        "unexpected end"
    );
    assert_eq!(
        ParserError::UnexpectedEnd {
            message: "m".to_string()
        }
        .to_string(),
        "unexpected end"
    );
    assert_eq!(
        ParserError::UnknownToken {
            message: "Foo".to_string()
        }
        .to_string(),
        "Unexpected token Foo"
    );
    assert_eq!(
        missing("--END--", "end of automaton").to_string(),
        "Necessary token --END-- is missing in end of automaton"
    );
    assert_eq!(
        mismatching("0", "'x'", "num_aps").to_string(),
        "Syntax error, expected token 0 but got 'x' in num_aps"
    );
}
