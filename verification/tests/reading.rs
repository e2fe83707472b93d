use lisper::{ArithOp, Fault, Host, LisperErr, LisperExp, TrigOp};

fn arith(op: ArithOp, a: u64, b: u64) -> u64 {
    let x = f64::from_bits(a);
    let y = f64::from_bits(b);
    let r = match op {
        ArithOp::Add => x + y,
        ArithOp::Sub => x - y,
        ArithOp::Mul => x * y,
        ArithOp::Div => x / y,
        ArithOp::Rem => x % y,
    };
    r.to_bits()
}

fn trig(op: TrigOp, a: u64) -> u64 {
    let x = f64::from_bits(a);
    let r = match op {
        TrigOp::Sin => x.sin(),
        TrigOp::Cos => x.cos(),
        TrigOp::Tan => x.tan(),
    };
    r.to_bits()
}

fn render(a: u64) -> String {
    f64::from_bits(a).to_string()
}

fn read(token: &str) -> Option<u64> {
    token.parse::<f64>().ok().map(f64::to_bits)
}

type Floats = Host<
    fn(ArithOp, u64, u64) -> u64,
    fn(TrigOp, u64) -> u64,
    fn(u64) -> String,
    fn(&str) -> Option<u64>,
>;

fn host() -> Floats {
    Host::new(arith, trig, render, read)
}

fn num(x: f64) -> LisperExp {
    LisperExp::Number(x.to_bits())
}

fn sym(name: &str) -> LisperExp {
    LisperExp::Symbol(name.to_string())
}

fn strings(items: &[&str]) -> Vec<String> {
    items.iter().map(|s| s.to_string()).collect()
}

fn padded_and_split(text: &str) -> Vec<String> {
    text.replace("(", "( ").replace(")", " )").split_whitespace().map(|x| x.to_string()).collect()
}

#[test]
fn core_tokenize_expr() {
    assert_eq!(lisper::reader::tokenize("(+ 1 1)".to_string()), ["(", "+", "1", "1", ")"]);
}

#[test]
fn lib_tokenize_expr() {
    assert_eq!(lisper::tokenize("(+ 1 1)".to_string()), ["(", "+", "1", "1", ")"]);
}

#[test]
fn core_parse_expr() -> Result<(), LisperErr> {
    let mock_tokens = ["(".to_string(), "+".to_string(), "1".to_string(), "1".to_string(), ")".to_string()];

    let (parsed_tokens, _) = lisper::reader::parse(&mock_tokens[..], &host())?;
    match parsed_tokens {
        LisperExp::List(list) => assert_eq!(list.len(), 3),
        _ => assert!(false)
    }
    Ok(())
}

#[test]
fn lib_parse_expr() -> Result<(), LisperErr> {
    let mock_tokens = ["(".to_string(), "+".to_string(), "1".to_string(), "1".to_string(), ")".to_string()];

    let (parsed_tokens, _) = lisper::parse(&mock_tokens[..], &host())?;
    match parsed_tokens {
        LisperExp::List(list) => assert_eq!(list.len(), 3),
        _ => assert!(false)
    }
    Ok(())
}

#[test]
fn core_parse_number_expr() {
    let mock_token = "99";

    match lisper::reader::parse_token(&mock_token, &host()) {
        LisperExp::Number(num) => assert_eq!(f64::from_bits(num), 99.0),
        _ => assert!(false)
    }
}

#[test]
fn lib_parse_number_expr() {
    let mock_token = "99";

    match lisper::parse_token(&mock_token, &host()) {
        LisperExp::Number(num) => assert_eq!(f64::from_bits(num), 99.0),
        _ => assert!(false)
    }
}

#[test]
fn core_parse_symbol_expr() {
    let mock_token = "+";

    match lisper::reader::parse_token(&mock_token, &host()) {
        LisperExp::Symbol(sym) => assert_eq!(sym.to_string(), "+".to_string()),
        _ => assert!(false)
    }
}

#[test]
fn lib_parse_symbol_expr() {
    let mock_token = "+";

    match lisper::parse_token(&mock_token, &host()) {
        LisperExp::Symbol(sym) => assert_eq!(sym.to_string(), "+".to_string()),
        _ => assert!(false)
    }
}

#[test]
fn core_parse_bool_expr() {
    let mock_token = "true";

    match lisper::reader::parse_token(&mock_token, &host()) {
        LisperExp::Bool(b) => assert!(b),
        _ => assert!(false)
    }
}

#[test]
fn lib_parse_bool_expr() {
    let mock_token = "true";

    match lisper::parse_token(&mock_token, &host()) {
        LisperExp::Bool(b) => assert!(b),
        _ => assert!(false)
    }
}

#[test]
fn core_parse_expr_complex() -> Result<(), LisperErr> {
    let mock_tokens = ["(".to_string(), "+".to_string(), "1".to_string(), ")".to_string(), "(".to_string(), "*".to_string(), "2".to_string(), "2".to_string(), ")".to_string()];

    let (parsed_tokens, _) = lisper::reader::parse(&mock_tokens[..], &host())?;
    match parsed_tokens {
        LisperExp::List(list) => assert_eq!(list.len(), 2),
        _ => assert!(false)
    }
    Ok(())
}

#[test]
fn lib_parse_expr_complex() -> Result<(), LisperErr> {
    let mock_tokens = ["(".to_string(), "+".to_string(), "1".to_string(), ")".to_string(), "(".to_string(), "*".to_string(), "2".to_string(), "2".to_string(), ")".to_string()];

    let (parsed_tokens, _) = lisper::parse(&mock_tokens[..], &host())?;
    match parsed_tokens {
        LisperExp::List(list) => assert_eq!(list.len(), 2),
        _ => assert!(false)
    }
    Ok(())
}

#[test]
fn tokenize_matches_padding_and_splitting() {
    let samples = [
        "",
        "   ",
        "(+ 1 1)",
        "(+ (+ 1 1) (*  2 2))",
        "(def a 1)\t(+ a 1)",
        "a(b",
        "a)b",
        ")(",
        "()",
        "((",
        "))",
        "  lone  ",
        "x\u{a0}y\u{2003}z\u{3000}w",
        "\u{85}(\u{1680}sin\u{2028}pi\u{2029})\u{202f}\u{205f}",
        "caf\u{e9} \u{1f600}(\u{4e2d}\u{6587})",
        "(fn add-fn a (+ a 1))",
        "\n(\r\n+ 1\u{b}2\u{c}3\n)\n",
    ];
    for text in samples {
        assert_eq!(lisper::tokenize(text.to_string()), padded_and_split(text), "tokens of {:?}", text);
    }
}

#[test]
fn tokenize_keeps_touching_parentheses_together() {
    assert_eq!(lisper::tokenize(")(".to_string()), [")("]);
    assert_eq!(lisper::tokenize("a(b".to_string()), ["a(", "b"]);
    assert_eq!(lisper::tokenize("a)b".to_string()), ["a", ")b"]);
}

#[test]
fn tokenize_of_nothing_is_empty() {
    assert!(lisper::tokenize("".to_string()).is_empty());
    assert!(lisper::tokenize(" \t\n".to_string()).is_empty());
}

#[test]
fn whitespace_is_unicode_white_space() {
    for code in 0u32..=0x10ffff {
        if let Some(c) = char::from_u32(code) {
            assert_eq!(lisper::text::is_space_char(c), c.is_whitespace(), "U+{:04X}", code);
        }
    }
}

#[test]
fn same_text_compares_characters() {
    assert!(lisper::text::same_text("", ""));
    assert!(lisper::text::same_text("def", "def"));
    assert!(lisper::text::same_text("caf\u{e9}", "caf\u{e9}"));
    assert!(!lisper::text::same_text("def", "de"));
    assert!(!lisper::text::same_text("def", "deg"));
    assert!(!lisper::text::same_text("", "x"));
}

#[test]
fn parse_consumes_one_form_at_a_time() -> Result<(), LisperErr> {
    let tokens = lisper::tokenize("(+ 1) (* 2 2)".to_string());
    let h = host();

    let (first, rest) = lisper::parse(&tokens, &h)?;
    assert_eq!(first, LisperExp::List(vec![sym("+"), num(1.0)]));
    assert_eq!(rest, &strings(&["(", "*", "2", "2", ")"])[..]);

    let (second, rest) = lisper::parse(rest, &h)?;
    assert_eq!(second, LisperExp::List(vec![sym("*"), num(2.0), num(2.0)]));
    assert!(rest.is_empty());

    match lisper::parse(rest, &h) {
        Err(e) => assert_eq!(e.to_string(), "Could not get token"),
        Ok(_) => assert!(false),
    }
    Ok(())
}

#[test]
fn parse_keeps_the_order_and_the_nesting() -> Result<(), LisperErr> {
    let tokens = lisper::tokenize("(if (< 1 0) (a b) ())".to_string());
    let (exp, rest) = lisper::parse(&tokens, &host())?;
    assert!(rest.is_empty());
    assert_eq!(
        exp,
        LisperExp::List(vec![
            sym("if"),
            LisperExp::List(vec![sym("<"), num(1.0), num(0.0)]),
            LisperExp::List(vec![sym("a"), sym("b")]),
            LisperExp::List(vec![]),
        ])
    );
    Ok(())
}

#[test]
fn parse_of_an_atom_leaves_the_rest() -> Result<(), LisperErr> {
    let tokens = strings(&["a", "b", ")"]);
    let (exp, rest) = lisper::parse(&tokens, &host())?;
    assert_eq!(exp, sym("a"));
    assert_eq!(rest, &strings(&["b", ")"])[..]);
    Ok(())
}

#[test]
fn parse_of_no_tokens_fails() {
    let tokens: Vec<String> = vec![];
    match lisper::parse(&tokens, &host()) {
        Err(LisperErr::Reason(reason)) => assert_eq!(reason, "Could not get token"),
        Ok(_) => assert!(false),
    }
}

#[test]
fn parse_of_a_stray_close_fails() {
    let tokens = strings(&[")"]);
    match lisper::parse(&tokens, &host()) {
        Err(LisperErr::Reason(reason)) => assert_eq!(reason, "Parsing error, found unexpected )."),
        Ok(_) => assert!(false),
    }
    let tokens = strings(&[")", "(", "+", ")"]);
    match lisper::parse(&tokens, &host()) {
        Err(e) => assert_eq!(e.to_string(), Fault::UnexpectedCloseParen.reason().to_string()),
        Ok(_) => assert!(false),
    }
}

#[test]
fn parse_of_an_open_list_fails() {
    for tokens in [strings(&["(", "+", "1"]), strings(&["("]), strings(&["(", "(", "a", ")"])] {
        match lisper::parse(&tokens, &host()) {
            Err(LisperErr::Reason(reason)) => assert_eq!(reason, "Error reading token, missing )."),
            Ok(_) => assert!(false),
        }
    }
}

#[test]
fn atoms_are_booleans_then_numbers_then_symbols() {
    let h = host();
    assert_eq!(lisper::parse_token("true", &h), LisperExp::Bool(true));
    assert_eq!(lisper::parse_token("false", &h), LisperExp::Bool(false));
    assert_eq!(lisper::parse_token("True", &h), sym("True"));
    assert_eq!(lisper::parse_token("1", &h), num(1.0));
    assert_eq!(lisper::parse_token("-2.5e3", &h), num(-2500.0));
    assert_eq!(lisper::parse_token(".5", &h), num(0.5));
    assert_eq!(lisper::parse_token("inf", &h), num(f64::INFINITY));
    assert_eq!(lisper::parse_token("add-fn", &h), sym("add-fn"));
    assert_eq!(lisper::parse_token("1x", &h), sym("1x"));
    assert_eq!(lisper::parse_token("", &h), sym(""));
}

#[test]
fn a_read_nan_is_the_one_nan() {
    assert_eq!(lisper::parse_token("NaN", &host()), LisperExp::Number(lisper::numbers::NAN_BITS));
    fn odd(_token: &str) -> Option<u64> {
        Some(0xfff0_0000_0000_0001)
    }
    let h: Floats = Host::new(arith, trig, render, odd);
    assert_eq!(lisper::parse_token("anything", &h), LisperExp::Number(lisper::numbers::NAN_BITS));
}

#[test]
fn tokens_hold_a_character_and_no_whitespace() {
    let samples = ["(+ 1 1)", "  a\u{a0}b\t(c)\n", ")(", "( ( ) )", "\u{3000}x\u{2009}(y\u{85})"];
    for text in samples {
        for token in lisper::tokenize(text.to_string()) {
            assert!(!token.is_empty(), "{:?}", text);
            assert!(!token.chars().any(|c| c.is_whitespace()), "{:?} in {:?}", token, text);
        }
    }
}

#[test]
fn parsing_goes_on_where_it_stopped() -> Result<(), LisperErr> {
    let h = host();
    let tokens = lisper::tokenize("(a (b)) c (d e) f".to_string());
    let mut at = 0;
    let mut rest = &tokens[..];
    let mut count = 0;
    while at < tokens.len() {
        let (by_index, next) = h.parse_at(&tokens, at)?;
        let (by_rest, after) = lisper::parse(rest, &h)?;
        assert_eq!(by_index, by_rest);
        assert_eq!(after, &tokens[next..]);
        assert!(at < next && next <= tokens.len());
        at = next;
        rest = after;
        count += 1;
    }
    assert_eq!(count, 4);
    match h.parse_at(&tokens, tokens.len() + 3) {
        Err(e) => assert_eq!(e.to_string(), "Could not get token"),
        Ok(_) => assert!(false),
    }
    Ok(())
}

#[test]
fn the_parser_builds_no_function() -> Result<(), LisperErr> {
    fn is_source(exp: &LisperExp) -> bool {
        match exp {
            LisperExp::Func(_) | LisperExp::Lambda(_, _) => false,
            LisperExp::List(items) => items.iter().all(is_source),
            _ => true,
        }
    }
    for text in ["Function", "(fn f a (+ a 1))", "(+ sin (Function {}) (a,(+,a,1)))"] {
        let tokens = lisper::tokenize(text.to_string());
        let (exp, _) = lisper::parse(&tokens, &host())?;
        assert!(is_source(&exp), "{:?}", text);
    }
    assert_eq!(lisper::parse_token("Function", &host()), sym("Function"));
    Ok(())
}

const TEXTS: [&str; 9] = [
    "",
    "(+ 1 1)",
    "  (def a\t(+ 1 2))\n",
    ")(",
    "a(b)c",
    "((x))",
    "( ( ) )",
    "\u{a0}caf\u{e9}(\u{3000}",
    "(fn add-fn a (+ a 1)) tail",
];

#[test]
fn the_tokens_are_the_text_without_its_whitespace() {
    for text in TEXTS {
        let joined: String = lisper::tokenize(text.to_string()).concat();
        let expected: String = text.chars().filter(|c| !c.is_whitespace()).collect();
        assert_eq!(joined, expected, "{:?}", text);
    }
}

#[test]
fn tokens_spelled_out_come_back() {
    for text in TEXTS {
        let tokens = lisper::tokenize(text.to_string());
        let mut spelled = String::new();
        for token in &tokens {
            spelled.push_str(token);
            spelled.push(' ');
        }
        assert_eq!(lisper::tokenize(spelled), tokens, "{:?}", text);
        for token in &tokens {
            assert!(!token[..token.len() - 1].contains('('), "{:?}", token);
            assert!(!token[1..].contains(')'), "{:?}", token);
            assert_eq!(lisper::tokenize(token.clone()), [token.clone()]);
        }
    }
}

#[test]
fn whitespace_separates_and_sets_parentheses_apart() {
    for a in TEXTS {
        for b in TEXTS {
            let mut expected = lisper::tokenize(a.to_string());
            expected.extend(lisper::tokenize(b.to_string()));
            assert_eq!(lisper::tokenize(format!("{}\n{}", a, b)), expected);

            let mut apart = lisper::tokenize(a.to_string());
            apart.push(")".to_string());
            apart.extend(lisper::tokenize(b.to_string()));
            assert_eq!(lisper::tokenize(format!("{} )\t{}", a, b)), apart);
        }
    }
}

#[test]
fn a_list_ends_with_the_parenthesis_that_balances_it() {
    let h = host();
    let tokens = strings(&["(", "a", "(", "b", "(", ")", ")", "c", ")", ")", "d"]);
    match h.parse_at(&tokens, 0) {
        Ok((_, next)) => assert_eq!(next, 9),
        Err(_) => assert!(false),
    }
    match h.parse_at(&tokens, 2) {
        Ok((exp, next)) => {
            assert_eq!(next, 7);
            assert_eq!(exp, LisperExp::List(vec![sym("b"), LisperExp::List(vec![])]));
        },
        Err(_) => assert!(false),
    }
    match h.parse_at(&tokens, 9) {
        Err(e) => assert_eq!(e.to_string(), "Parsing error, found unexpected )."),
        Ok(_) => assert!(false),
    }
    let open = strings(&["(", "a", "(", "b", ")"]);
    match h.parse_at(&open, 0) {
        Err(e) => assert_eq!(e.to_string(), "Error reading token, missing )."),
        Ok(_) => assert!(false),
    }
}

#[test]
fn the_leaves_are_the_tokens_that_are_no_parentheses() -> Result<(), LisperErr> {
    fn leaves(exp: &LisperExp, into: &mut Vec<LisperExp>, lists: &mut usize) {
        match exp {
            LisperExp::List(items) => {
                *lists += 1;
                for item in items {
                    leaves(item, into, lists);
                }
            },
            other => into.push(other.duplicate()),
        }
    }
    let h = host();
    let tokens = lisper::tokenize("(if (< 1 0) (a true ()) -2.5)".to_string());
    let (exp, rest) = lisper::parse(&tokens, &h)?;
    assert!(rest.is_empty());
    let mut found = vec![];
    let mut lists = 0;
    leaves(&exp, &mut found, &mut lists);
    let expected: Vec<LisperExp> = tokens
        .iter()
        .filter(|t| t.as_str() != "(" && t.as_str() != ")")
        .map(|t| lisper::parse_token(t, &h))
        .collect();
    assert_eq!(found, expected);
    assert_eq!(lists, tokens.iter().filter(|t| t.as_str() == "(").count());
    Ok(())
}
