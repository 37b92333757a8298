use py_runtime::grids::{capture, capture_cells, color_palette, fire_palette, next_state, render};
use py_runtime::minilang::{
    build_benchmark_source, eval_expr, execute, tokenize, Env, EvalError, ExprKind, ParseError,
    Parser, TokenKind, TokenizeError,
};
use py_runtime::routines::{
    abs_like, add, decorate, fib, greet, inc, invert, is_large, make_msg_22, maybe_fail_19,
    mul3, pick_25, square_plus_one, sum_range_29, swap_sum_18, twice, Animal, Counter, Counter26,
    Dog, Multiplier, Point, Point99,
};

#[test]
fn small_routines() {
    assert_eq!(add(3, 4), 7);
    assert_eq!(py_runtime::routines::calc(9, 4), 10);
    assert_eq!(abs_like(-12), 12);
    assert_eq!(abs_like(5), 5);
    assert_eq!(square_plus_one(5), 26);
    assert!(is_large(11));
    assert!(!is_large(9));
    assert_eq!(greet(&String::from("Codex")), "Hello, Codex");
    assert_eq!(inc(1), 2);
    assert_eq!(twice(10), 12);
    assert_eq!(mul3(7), 21);
    assert!(invert(false));
    assert_eq!(fib(10), 55);
    assert_eq!(fib(0), 0);
    assert_eq!(fib(1), 1);
    assert_eq!(decorate(&String::from("Alice")), "[USER] Alice!");
    assert_eq!(swap_sum_18(10, 20), 30);
    assert_eq!(maybe_fail_19(true), 20);
    assert_eq!(maybe_fail_19(false), 10);
    assert_eq!(make_msg_22(&String::from("user"), 7), "user:22:7");
    assert_eq!(pick_25(10, 3, true), 10);
    assert_eq!(pick_25(10, 3, false), 3);
    assert_eq!(sum_range_29(5), 10);
    assert_eq!(sum_range_29(0), 0);
    assert_eq!(sum_range_29(-3), 0);
}

#[test]
fn small_classes() {
    assert_eq!(Multiplier::new().mul(6, 7), 42);
    assert_eq!(Animal::new().sound(), "generic");
    assert_eq!(Dog::new().bark(), "generic-bark");
    let mut c = Counter::new();
    assert_eq!(c.inc(), 1);
    assert_eq!(c.inc(), 2);
    assert_eq!(Point::new(2, 5).total(), 7);
    let mut c26 = Counter26::new();
    assert_eq!(c26.add(5), 5);
    assert_eq!(c26.add(-2), 3);
    assert_eq!(Point99::new(3).total(), 13);
}

#[test]
fn life_blinker_oscillates() {
    let mut g = vec![vec![0i64; 5]; 5];
    g[2][1] = 1;
    g[2][2] = 1;
    g[2][3] = 1;
    let n = next_state(&g, 5, 5);
    let mut expect = vec![vec![0i64; 5]; 5];
    expect[1][2] = 1;
    expect[2][2] = 1;
    expect[3][2] = 1;
    assert_eq!(n, expect);
    assert_eq!(next_state(&n, 5, 5), g);
}

#[test]
fn life_wraps_around_edges() {
    let mut g = vec![vec![0i64; 4]; 4];
    g[0][0] = 1;
    g[0][3] = 1;
    g[3][0] = 1;
    let n = next_state(&g, 4, 4);
    assert_eq!(n[3][3], 1);
    assert_eq!(n[0][0], 1);
}

#[test]
fn scaled_frames() {
    let g = vec![vec![1i64, 0], vec![0, 2]];
    let f = render(&g, 2, 2, 2);
    assert_eq!(
        f,
        vec![255, 255, 0, 0, 255, 255, 0, 0, 0, 0, 255, 255, 0, 0, 255, 255]
    );
    let m = capture(&g, 2, 2, 1);
    assert_eq!(m, vec![40, 255, 255, 40]);
    assert_eq!(capture_cells(&g, 2, 2), vec![255, 0, 0, 255]);
}

#[test]
fn fixed_palettes() {
    let p = color_palette();
    assert_eq!(p.len(), 768);
    assert_eq!(&p[3 * 100..3 * 100 + 3], &[100, 44, 155]);
    let f = fire_palette();
    assert_eq!(f.len(), 768);
    assert_eq!(&f[3 * 10..3 * 10 + 3], &[30, 0, 0]);
    assert_eq!(&f[3 * 100..3 * 100 + 3], &[255, 45, 0]);
    assert_eq!(&f[3 * 200..3 * 200 + 3], &[255, 255, 90]);
}

fn run(lines: &[&str]) -> Result<(i64, Vec<i64>), EvalError> {
    let src: Vec<String> = lines.iter().map(|s| s.to_string()).collect();
    let tokens = tokenize(&src).expect("tokenizes");
    let mut parser = Parser::new(tokens);
    let stmts = parser.parse_program().expect("parses");
    execute(&stmts, &parser.expr_nodes)
}

#[test]
fn demo_program_runs() {
    let (checksum, printed) =
        run(&["let a = 10", "let b = 3", "a = (a + b) * 2", "print a", "print a / b"]).unwrap();
    assert_eq!(printed, vec![26, 8]);
    assert_eq!(checksum, (26 * 131 + 8) % 1_000_000_007);
}

#[test]
fn division_truncates_and_negatives_normalise() {
    let (checksum, printed) = run(&["let a = -7", "print a / 2", "print -a"]).unwrap();
    assert_eq!(printed, vec![-3, 7]);
    let first = (-3i64).rem_euclid(1_000_000_007);
    assert_eq!(checksum, (first * 131 + 7) % 1_000_000_007);
}

#[test]
fn runtime_errors() {
    assert_eq!(run(&["print x"]), Err(EvalError::UndefinedVariable));
    assert_eq!(run(&["x = 1"]), Err(EvalError::AssignToUndefined));
    assert_eq!(run(&["let a = 1", "print a / (a - 1)"]), Err(EvalError::DivisionByZero));
    assert_eq!(
        run(&["let a = 9223372036854775807", "print a + 1"]),
        Err(EvalError::Overflow)
    );
}

#[test]
fn tokenizer_kinds_and_errors() {
    let src = vec![String::from("let x_1 = (12 + y) * 3"), String::from("print x_1")];
    let toks = tokenize(&src).unwrap();
    let kinds: Vec<TokenKind> = toks.iter().map(|t| t.kind).collect();
    let expect = vec![
        TokenKind::Let, TokenKind::Ident, TokenKind::Equal, TokenKind::LParen, TokenKind::Number,
        TokenKind::Plus, TokenKind::Ident, TokenKind::RParen, TokenKind::Star, TokenKind::Number,
        TokenKind::Newline, TokenKind::Print, TokenKind::Ident, TokenKind::Newline, TokenKind::Eof,
    ];
    assert_eq!(kinds, expect);
    assert_eq!(toks[4].text, "12");
    assert_eq!(toks[4].pos, 11);
    assert_eq!(
        tokenize(&vec![String::from("let a = 1"), String::from("print a % 2")]).err(),
        Some(TokenizeError { line: 1, pos: 8 })
    );
    assert!(tokenize(&vec![String::from("print é")]).is_err());
}

#[test]
fn parser_errors() {
    let src = vec![String::from("let = 3")];
    let mut p = Parser::new(tokenize(&src).unwrap());
    assert_eq!(
        p.parse_program().err(),
        Some(ParseError::Expected { pos: 4, expected: TokenKind::Ident, got: TokenKind::Equal })
    );
    let src = vec![String::from("print )")];
    let mut p = Parser::new(tokenize(&src).unwrap());
    assert_eq!(p.parse_program().err(), Some(ParseError::Primary { pos: 6, got: TokenKind::RParen }));
    let src = vec![String::from("print 99999999999999999999")];
    let mut p = Parser::new(tokenize(&src).unwrap());
    assert_eq!(p.parse_program().err(), Some(ParseError::Number { pos: 6 }));
}

#[test]
fn expression_nodes_and_eval() {
    let src = vec![String::from("print 1 - -2 * 3")];
    let mut p = Parser::new(tokenize(&src).unwrap());
    let stmts = p.parse_program().unwrap();
    assert_eq!(stmts.len(), 1);
    assert!(matches!(p.expr_nodes[stmts[0].expr_index].kind, ExprKind::Bin));
    let env = Env::new();
    assert_eq!(eval_expr(stmts[0].expr_index, &p.expr_nodes, &env), Ok(7));
}

#[test]
fn benchmark_source_shape() {
    let lines = build_benchmark_source(4, 100);
    assert_eq!(lines[0], "let v0 = 1");
    assert_eq!(lines[3], "let v3 = 4");
    assert_eq!(lines[4], "v0 = (v0 * 1 + v3 + 10000) / 2");
    assert_eq!(lines[5], "print v0");
    assert_eq!(lines[6], "v1 = (v1 * 2 + v0 + 10000) / 3");
    assert_eq!(lines.len(), 4 + 100 + 2 + 1);
    assert_eq!(lines[lines.len() - 1], "print (v0 + v1 + v2 + v3)");
    let toks = tokenize(&lines).unwrap();
    let mut p = Parser::new(toks);
    let stmts = p.parse_program().unwrap();
    assert!(execute(&stmts, &p.expr_nodes).is_ok());
}

#[test]
fn ant_frames_follow_the_ant() {
    let frames = py_runtime::grids::ant_frames(5, 5, 7, 3);
    assert_eq!(frames.len(), 3);
    let mut first = vec![0u8; 25];
    first[2 * 5 + 2] = 255;
    assert_eq!(frames[0], first);
    assert_eq!(py_runtime::grids::ant_frames(5, 5, 0, 3).len(), 0);
    assert_eq!(py_runtime::grids::ant_frames(4, 4, 6, 3).len(), 2);
}

#[test]
fn life_frames_render_each_generation() {
    let mut g = vec![vec![0i64; 5]; 5];
    g[2][1] = 1;
    g[2][2] = 1;
    g[2][3] = 1;
    let frames = py_runtime::grids::life_frames(g.clone(), 5, 5, 1, 3);
    assert_eq!(frames.len(), 3);
    assert_eq!(frames[0], render(&g, 5, 5, 1));
    assert_eq!(frames[1], render(&next_state(&g, 5, 5), 5, 5, 1));
    assert_eq!(frames[2], frames[0]);
}

#[test]
fn tokenizer_positions_and_texts() {
    let toks = tokenize(&vec![String::from("let a = 10")]).unwrap();
    let got: Vec<(TokenKind, String, i64)> =
        toks.iter().map(|t| (t.kind, t.text.clone(), t.pos)).collect();
    let expect = vec![
        (TokenKind::Let, String::from("let"), 0),
        (TokenKind::Ident, String::from("a"), 4),
        (TokenKind::Equal, String::from("="), 6),
        (TokenKind::Number, String::from("10"), 8),
        (TokenKind::Newline, String::new(), 10),
        (TokenKind::Eof, String::new(), 1),
    ];
    assert_eq!(got, expect);
}
