use calc_engine::engine::{remove_blanks, resolve_variables, CalcEngine, E_BITS, PI_BITS, TAU_BITS};
use calc_engine::error::CalcError;
use calc_engine::function::{create_function, Builtin};
use calc_engine::names::{bytes_equal, NameMap};
use calc_engine::session::Calculator;
use calc_engine::solve::{get_matching_bracket_index, solve, BinOp, Expr};
use calc_engine::token::{
    fold_sign_tokens, get_token_bounds, get_tokens, lex_tokens, is_valid_numeral, match_token, resolve_strings, tokenize,
    CharClass, Token, Value,
};
use calc_engine::ui::{Buttons, Pos};
use calc_engine::validate::{is_next_token_valid, is_valid_lhs_function, validate_token_list};

fn toks(text: &str) -> Vec<Token> {
    tokenize(&text.as_bytes().to_vec()).unwrap()
}

fn literal(t: &Token) -> Option<(bool, Vec<u8>)> {
    match t {
        Token::Number(Value::Literal { negative, digits }) => Some((*negative, digits.clone())),
        _ => None,
    }
}

#[test]
fn operators_match_longest_first() {
    assert!(matches!(match_token(b"<<"), Some(Token::BitwiseLeftShift)));
    assert!(matches!(match_token(b">>"), Some(Token::BitwiseRightShift)));
    assert!(matches!(match_token(b"//"), Some(Token::Truncation)));
    assert!(matches!(match_token(b"^^"), Some(Token::BitwiseXor)));
    assert!(matches!(match_token(b"^"), Some(Token::Exponentation)));
    assert!(matches!(match_token(b"="), Some(Token::Assignment)));
    assert!(match_token(b"<").is_none());
    assert!(match_token(b"").is_none());
    let t = toks("1//2^^3");
    assert!(matches!(t[1], Token::Truncation));
    assert!(matches!(t[3], Token::BitwiseXor));
    assert_eq!(t.len(), 5);
}

#[test]
fn token_bounds_cover_the_run() {
    assert_eq!(get_token_bounds(CharClass::Numeric, 1, b"a12.5+"), (1, 5));
    assert_eq!(get_token_bounds(CharClass::Alphabetic, 0, b"ab_c1"), (0, 4));
    assert_eq!(get_token_bounds(CharClass::Alphabetic, 2, b"xyz"), (2, 3));
    assert_eq!(get_token_bounds(CharClass::Numeric, 3, b"12"), (3, 4));
}

#[test]
fn numerals() {
    assert!(is_valid_numeral(&b"12.5".to_vec()));
    assert!(is_valid_numeral(&b"5.".to_vec()));
    assert!(is_valid_numeral(&b".5".to_vec()));
    assert!(!is_valid_numeral(&b".".to_vec()));
    assert!(!is_valid_numeral(&b"1.2.3".to_vec()));
    assert_eq!(get_tokens(b"..").unwrap_err(), CalcError::InvalidNumber);
}

#[test]
fn raw_tokens_and_errors() {
    let raw = lex_tokens(b"ab+12").unwrap();
    assert!(matches!(&raw[0], Token::UnresolvedString(n) if n == b"ab"));
    assert!(matches!(raw[1], Token::Addition));
    assert_eq!(literal(&raw[2]), Some((false, b"12".to_vec())));
    assert_eq!(get_tokens(b"1#2").unwrap_err(), CalcError::InvalidOperator);
    assert_eq!(get_tokens(&[0xc3, 0xa9]).unwrap_err(), CalcError::InvalidInput);
    assert!(get_tokens(b"").unwrap().is_empty());
    assert_eq!(lex_tokens(b"1#2").unwrap_err(), CalcError::InvalidOperator);
    let raw = lex_tokens(b"x=-5").unwrap();
    assert_eq!(raw.len(), 4);
    let signed = get_tokens(b"x=-5").unwrap();
    assert_eq!(signed.len(), 3);
    assert!(matches!(&signed[0], Token::UnresolvedString(n) if n == b"x"));
    assert!(matches!(signed[1], Token::Assignment));
    assert_eq!(literal(&signed[2]), Some((true, b"5".to_vec())));
}

#[test]
fn signs_fold_into_literals() {
    let t = toks("-5+3");
    assert_eq!(t.len(), 3);
    assert_eq!(literal(&t[0]), Some((true, b"5".to_vec())));
    let t = toks("2*-3");
    assert_eq!(literal(&t[2]), Some((true, b"3".to_vec())));
    let t = toks("2-3");
    assert_eq!(t.len(), 3);
    let t = toks("f(-1,+2)");
    assert_eq!(literal(&t[2]), Some((true, b"1".to_vec())));
    assert_eq!(literal(&t[4]), Some((false, b"2".to_vec())));
    let t = toks("--5");
    assert!(matches!(t[0], Token::Subtraction));
    assert_eq!(literal(&t[1]), Some((true, b"5".to_vec())));
    let raw = vec![Token::Subtraction, Token::Number(Value::Bits(0))];
    let folded = fold_sign_tokens(&raw);
    assert!(matches!(folded[0], Token::Number(Value::Bits(b)) if b == 0x8000_0000_0000_0000));
}

#[test]
fn names_become_functions_or_variables() {
    let t = resolve_strings(&vec![
        Token::UnresolvedString(b"f".to_vec()),
        Token::LeftBracket,
        Token::UnresolvedString(b"x".to_vec()),
        Token::RightBracket,
        Token::UnresolvedString(b"y".to_vec()),
    ]);
    assert!(matches!(&t[0], Token::FunctionName(n) if n == b"f"));
    assert!(matches!(&t[2], Token::Variable(n) if n == b"x"));
    assert!(matches!(&t[4], Token::Variable(n) if n == b"y"));
}

#[test]
fn grammar_rules() {
    assert_eq!(validate_token_list(&vec![]), Err(CalcError::EmptyInput));
    assert_eq!(validate_token_list(&toks("x=y=1")), Err(CalcError::TooManyAssignments));
    assert_eq!(validate_token_list(&toks("*2")), Err(CalcError::InvalidFirstToken));
    assert_eq!(validate_token_list(&toks(")2")), Err(CalcError::InvalidFirstToken));
    assert_eq!(validate_token_list(&toks("2+")), Err(CalcError::InvalidLastToken));
    assert_eq!(validate_token_list(&toks("2(")), Err(CalcError::InvalidLastToken));
    assert_eq!(validate_token_list(&toks("2x")), Err(CalcError::InvalidSequence));
    assert_eq!(validate_token_list(&toks("2*/3")), Err(CalcError::InvalidSequence));
    assert_eq!(validate_token_list(&toks("(2+3")), Err(CalcError::UnmatchedParenthesis));
    assert_eq!(validate_token_list(&toks("2+3)")), Err(CalcError::UnmatchedParenthesis));
    assert_eq!(validate_token_list(&toks("1,2")), Err(CalcError::CommaOutsideFunction));
    assert_eq!(validate_token_list(&toks("(1,2)")), Err(CalcError::CommaOutsideFunction));
    assert_eq!(validate_token_list(&toks("f(1,2)")), Ok(()));
    assert_eq!(validate_token_list(&toks("f(a,b)=a*a+b")), Ok(()));
}

#[test]
fn neighbour_table() {
    assert!(!is_next_token_valid(&Token::Number(Value::Bits(0)), &Token::LeftBracket));
    assert!(is_next_token_valid(&Token::Number(Value::Bits(0)), &Token::Addition));
    assert!(!is_next_token_valid(&Token::FunctionName(b"f".to_vec()), &Token::Comma));
    assert!(!is_next_token_valid(&Token::Comma, &Token::RightBracket));
    assert!(!is_next_token_valid(&Token::LeftBracket, &Token::Comma));
    assert!(is_next_token_valid(&Token::Assignment, &Token::LeftBracket));
    assert!(!is_next_token_valid(&Token::FunctionArg(0), &Token::Addition));
}

#[test]
fn function_left_hand_sides() {
    let lhs = |s: &str| {
        let t = toks(s);
        let k = t.iter().position(|t| matches!(t, Token::Assignment)).unwrap();
        t[..k].to_vec()
    };
    assert_eq!(is_valid_lhs_function(&lhs("f(a,b)=1")), Ok(()));
    assert_eq!(is_valid_lhs_function(&lhs("f()=1")), Ok(()));
    assert_eq!(is_valid_lhs_function(&lhs("sin(x)=1")), Err(CalcError::ReservedName));
    assert_eq!(is_valid_lhs_function(&lhs("ln(x)=1")), Err(CalcError::ReservedName));
    let two_args = vec![
        Token::FunctionName(b"f".to_vec()),
        Token::LeftBracket,
        Token::Variable(b"a".to_vec()),
        Token::Variable(b"b".to_vec()),
        Token::RightBracket,
    ];
    assert_eq!(is_valid_lhs_function(&two_args), Err(CalcError::ExpectedComma));
    assert_eq!(is_valid_lhs_function(&lhs("f(1)=1")), Err(CalcError::ExpectedArg));
    assert_eq!(is_valid_lhs_function(&lhs("(a)=1")), Err(CalcError::NotAFunction));
    assert_eq!(is_valid_lhs_function(&vec![Token::FunctionName(b"g".to_vec())]), Err(CalcError::ArgsNotBracketed));
}

#[test]
fn builtin_names() {
    assert_eq!(Builtin::from_name(&b"sin".to_vec()), Some(Builtin::Sin));
    assert_eq!(Builtin::from_name(&b"atan".to_vec()), Some(Builtin::Atan));
    assert_eq!(Builtin::from_name(&b"log".to_vec()), Some(Builtin::Log));
    assert_eq!(Builtin::from_name(&b"ln".to_vec()), Some(Builtin::Ln));
    assert_eq!(Builtin::from_name(&b"fact".to_vec()), None);
    assert_eq!(Builtin::from_name(&b"si".to_vec()), None);
}

#[test]
fn definition_replaces_arguments_and_binds_the_rest() {
    let mut vars: NameMap<u64> = NameMap::new();
    vars.insert(b"k".to_vec(), 7);
    let t = toks("f(a,b)=b+k*a");
    let f = create_function(&t[..6].to_vec(), &t[7..].to_vec(), &vars).unwrap();
    assert_eq!(f.name, b"f".to_vec());
    assert_eq!(f.arg_count, 2);
    assert!(matches!(f.func[0], Token::FunctionArg(1)));
    assert!(matches!(f.func[2], Token::Number(Value::Bits(7))));
    assert!(matches!(f.func[4], Token::FunctionArg(0)));
    let t = toks("f(a)=a+z");
    assert_eq!(create_function(&t[..4].to_vec(), &t[5..].to_vec(), &vars).unwrap_err(), CalcError::InvalidVariables);
}

#[test]
fn binding_store() {
    let mut m: NameMap<u64> = NameMap::new();
    assert_eq!(m.get(&b"x".to_vec()), None);
    m.insert(b"x".to_vec(), 1);
    m.insert(b"y".to_vec(), 2);
    m.insert(b"x".to_vec(), 3);
    assert_eq!(m.get(&b"x".to_vec()), Some(&3));
    assert_eq!(m.get(&b"y".to_vec()), Some(&2));
    assert!(bytes_equal(&b"ab".to_vec(), &b"ab".to_vec()));
    assert!(!bytes_equal(&b"ab".to_vec(), &b"abc".to_vec()));
}

#[test]
fn resolution_replaces_variables() {
    let mut vars: NameMap<u64> = NameMap::new();
    vars.insert(b"x".to_vec(), 42);
    let r = resolve_variables(&vars, &toks("x+1")).unwrap();
    assert!(matches!(r[0], Token::Number(Value::Bits(42))));
    assert_eq!(resolve_variables(&vars, &toks("x+q")).unwrap_err(), CalcError::UnknownVariable);
}

#[test]
fn seeded_bits_are_the_constants() {
    assert_eq!(f64::from_bits(PI_BITS), std::f64::consts::PI);
    assert_eq!(f64::from_bits(E_BITS), std::f64::consts::E);
    assert_eq!(f64::from_bits(TAU_BITS), std::f64::consts::TAU);
    let engine = CalcEngine::new();
    assert!(engine.use_radians);
    assert_eq!(engine.variables.get(&b"tau".to_vec()), Some(&TAU_BITS));
}

#[test]
fn blanks_are_removed() {
    assert_eq!(remove_blanks(&b" 1 +\t2\n".to_vec()), b"1+2".to_vec());
}

#[test]
fn empty_expression_is_zero() {
    let funcs = NameMap::new();
    match solve(&funcs, true, &vec![]).unwrap() {
        Expr::Leaf(Value::Literal { negative: false, digits }) => assert_eq!(digits, b"0".to_vec()),
        other => panic!("unexpected {:?}", other),
    }
}

#[test]
fn solver_builds_left_grouped_trees() {
    let funcs = NameMap::new();
    match solve(&funcs, true, &toks("2^3^2")).unwrap() {
        Expr::Binary(BinOp::Pow, l, _) => assert!(matches!(*l, Expr::Binary(BinOp::Pow, _, _))),
        other => panic!("unexpected {:?}", other),
    }
    match solve(&funcs, false, &toks("cos(90)")).unwrap() {
        Expr::Call(Builtin::Cos, false, _) => {}
        other => panic!("unexpected {:?}", other),
    }
    assert_eq!(solve(&funcs, true, &toks("x")).unwrap_err(), CalcError::UnknownVariable);
}

#[test]
fn matching_bracket() {
    assert_eq!(get_matching_bracket_index(&toks("1+2)*3")), 3);
    assert_eq!(get_matching_bracket_index(&toks("(1))")), 3);
    assert_eq!(get_matching_bracket_index(&toks("1+2")), 0);
}

#[test]
fn calculator_commands() {
    let mut calc = Calculator::new();
    assert_eq!(calc.handle_command(&b"1+".to_vec()), None);
    assert_eq!(calc.handle_command(&b"2".to_vec()), None);
    assert_eq!(calc.user_input, b"1+2".to_vec());
    calc.delete_last();
    assert_eq!(calc.user_input, b"1+".to_vec());
    calc.handle_command(&b"3".to_vec());
    assert_eq!(calc.handle_command(&b"cmd_enter".to_vec()), Some(b"1+3".to_vec()));
    assert!(calc.user_input.is_empty());
    assert_eq!(calc.history[1], b"1+3".to_vec());
    calc.show_result(&b"4".to_vec());
    assert_eq!(calc.history[0], b">4".to_vec());
    assert_eq!(calc.history.len(), 14);
    calc.handle_command(&b"cmd_set_angle_degrees".to_vec());
    assert!(!calc.engine.use_radians);
    calc.handle_command(&b"cmd_set_angle_radians".to_vec());
    assert!(calc.engine.use_radians);
    assert!(calc.user_input.is_empty());
}

#[test]
fn drawing_plan() {
    let mut calc = Calculator::new();
    let ui = &mut calc.interface;
    assert_eq!(ui.tile_to_draw(3, 0), Some(99));
    assert_eq!(ui.tile_to_draw(0, 0), Some(129));
    assert_eq!(ui.cursor_corners(Pos { x: 0, y: 15 }), vec![(-1, 119), (1, 119), (1, 121), (-1, 121)]);
    ui.cursor = Pos { x: 0, y: 4 };
    assert_eq!(ui.cursor_corners(Pos { x: 0, y: 15 }), vec![(-1, 151), (17, 151), (17, 153), (-1, 153)]);
    let released = Buttons {
        a_released: false,
        a_just_pressed: true,
        a_just_released: false,
        up: false,
        down: false,
        left: false,
        right: false,
        b: false,
        start: false,
        select: false,
    };
    ui.handle_input(released);
    assert_eq!(ui.tile_to_draw(1, 4), Some(151));
}
