use lisper::driver::{evaluate, evaluate_lines, run, split_lines};
use lisper::{ArithOp, Host, LisperErr, LisperExp, TrigOp};

fn arith(op: ArithOp, a: u64, b: u64) -> u64 {
    let x = f64::from_bits(a);
    let y = f64::from_bits(b);
    let r = match op {
        ArithOp::Add => x + y,
        ArithOp::Sub => x - y,
        ArithOp::Mul => x * y,
        ArithOp::Div => x / y,
        ArithOp::Rem => x % y,
    };
    r.to_bits()
}

fn trig(op: TrigOp, a: u64) -> u64 {
    let x = f64::from_bits(a);
    let r = match op {
        TrigOp::Sin => x.sin(),
        TrigOp::Cos => x.cos(),
        TrigOp::Tan => x.tan(),
    };
    r.to_bits()
}

fn render(a: u64) -> String {
    f64::from_bits(a).to_string()
}

fn read(token: &str) -> Option<u64> {
    token.parse::<f64>().ok().map(f64::to_bits)
}

type Floats = Host<
    fn(ArithOp, u64, u64) -> u64,
    fn(TrigOp, u64) -> u64,
    fn(u64) -> String,
    fn(&str) -> Option<u64>,
>;

fn host() -> Floats {
    Host::new(arith, trig, render, read)
}

fn num(x: f64) -> LisperExp {
    LisperExp::Number(x.to_bits())
}

fn sym(name: &str) -> LisperExp {
    LisperExp::Symbol(name.to_string())
}

const DEPTH: usize = 64;

#[test]
fn basic_exp() {
    let expected_result:String = "4".to_string();
    let actual_result:String = run("(+ 2 2)".to_string(), &host(), DEPTH);
    assert_eq!(actual_result, expected_result);
}

#[test]
fn multiline_exp() {
    let expected_result:String = "4".to_string();
    let actual_result:String = run("(def w 2)\n(+ 2 w)".to_string(), &host(), DEPTH);
    assert_eq!(actual_result, expected_result);
}

#[test]
fn evaluate_renders_the_value() -> Result<(), LisperErr> {
    let mut env = lisper::create_default_env();
    let h = host();
    assert_eq!(evaluate("(+ (+ 1 1) (*  2 2))".to_string(), &mut env, &h, DEPTH)?, "6");
    assert_eq!(evaluate("(/ (* 13 18.3) (% 9 5))".to_string(), &mut env, &h, DEPTH)?, ((13.0 * 18.3) / (9.0f64 % 5.0)).to_string());
    assert_eq!(evaluate("(* (* (* 10 10) (* 10 10)) (* (* 10 10) (* 10 10))))".to_string(), &mut env, &h, DEPTH)?, "100000000");
    assert_eq!(evaluate("(< 1 2)".to_string(), &mut env, &h, DEPTH)?, "true");
    assert_eq!(evaluate("(def a 1.5)".to_string(), &mut env, &h, DEPTH)?, "1.5");
    assert_eq!(evaluate("a".to_string(), &mut env, &h, DEPTH)?, "1.5");
    assert_eq!(evaluate("sin".to_string(), &mut env, &h, DEPTH)?, "Function");
    assert_eq!(evaluate("(/ 0 0)".to_string(), &mut env, &h, DEPTH)?, "NaN");
    Ok(())
}

#[test]
fn evaluate_reads_the_first_expression_only() -> Result<(), LisperErr> {
    let mut env = lisper::create_default_env();
    assert_eq!(evaluate("(+ 1 1) (def a 1) )".to_string(), &mut env, &host(), DEPTH)?, "2");
    assert_eq!(env.get("a"), None);
    Ok(())
}

#[test]
fn evaluate_reports_the_failure() {
    let mut env = lisper::create_default_env();
    let h = host();
    let text = |r: Result<String, LisperErr>| r.map_err(|e| e.to_string());
    assert_eq!(text(evaluate("".to_string(), &mut env, &h, DEPTH)), Err("Could not get token".to_string()));
    assert_eq!(text(evaluate(")".to_string(), &mut env, &h, DEPTH)), Err("Parsing error, found unexpected ).".to_string()));
    assert_eq!(text(evaluate("(+ 1".to_string(), &mut env, &h, DEPTH)), Err("Error reading token, missing ).".to_string()));
    assert_eq!(text(evaluate("(foo)".to_string(), &mut env, &h, DEPTH)), Err("Error, env function not found.".to_string()));
    // touching parentheses make one token, which is read as a symbol
    assert_eq!(text(evaluate("(+ 1 1)(+ 2 2)".to_string(), &mut env, &h, DEPTH)), Err("Eval issue, not a real expression".to_string()));
}

#[test]
fn lines_share_one_environment() {
    let h = host();
    let mut env = lisper::create_default_env();
    let lines = vec!["(def a 2)".to_string(), "(fn twice x (* x 2))".to_string(), "(twice a)".to_string()];
    assert_eq!(evaluate_lines(&lines, &mut env, &h, DEPTH), "4");
    assert_eq!(env.get("a"), Some(&num(2.0)));
}

#[test]
fn a_failing_line_does_not_end_the_batch() {
    let h = host();
    assert_eq!(run("(def a 1)\n(oops)\n(+ a 1)".to_string(), &h, DEPTH), "2");
    assert_eq!(run("(def a 1)\n(+ a 1)\n(oops)".to_string(), &h, DEPTH), "Error, env function not found.");
    assert_eq!(run("(+ 1 1)\n\n".to_string(), &h, DEPTH), "Could not get token");
    assert_eq!(run("\n".to_string(), &h, DEPTH), "Could not get token");
    assert_eq!(run("(def w 2)\r\n(+ 2 w)\r\n".to_string(), &h, DEPTH), "4");
}

#[test]
fn lines_are_those_of_the_standard_library() {
    let samples = [
        "",
        "a",
        "\n",
        "\r",
        "\r\n",
        "a\n",
        "a\r",
        "a\r\n",
        "a\nb",
        "a\n\nb\n",
        "a\r\nb\r\n\r\n",
        "a\r\r\nb",
        "\r\ra",
        "a\rb\n\rc\r",
        "\n\n\n",
        "(def w 2)\n(+ 2 w)",
        "caf\u{e9}\r\n\u{1f600}\n",
    ];
    for text in samples {
        let expected: Vec<String> = text.lines().map(|l| l.to_string()).collect();
        assert_eq!(split_lines(text), expected, "lines of {:?}", text);
    }
}

#[test]
fn each_run_starts_from_the_root_environment() {
    let h = host();
    assert_eq!(run("(def a 1)".to_string(), &h, DEPTH), "1");
    assert_eq!(run("a".to_string(), &h, DEPTH), "Eval issue, not a real expression");
    assert_eq!(run("pi".to_string(), &h, DEPTH), core::f64::consts::PI.to_string());
    assert_eq!(run("(if (< 1 0) 1 2)".to_string(), &h, DEPTH), "2");
    assert_eq!(run("(fn f a (f a))\n(f 1)".to_string(), &h, 8), "Error, function calls nested too deeply.");
    let _ = LisperExp::Bool(true);
}
