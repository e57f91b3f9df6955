use transcript::environment::Environment;
use transcript::parser::{parse, ParseError};
use transcript::scanner::{ScanError, Tokenizer};
use transcript::surface::{pack, unpack};
use transcript::{execute, Config, ExecError, Host, Session, Token, TokenTypes, Value, AST};

struct Recorder {
    output: Vec<String>,
    warnings: Vec<String>,
}

impl Recorder {
    fn new() -> Recorder {
        Recorder { output: Vec::new(), warnings: Vec::new() }
    }
}

impl Host for Recorder {
    fn call_native(&mut self, key: &String, args: Vec<Value>, _env: &mut Environment) -> Value {
        if key == "print" {
            self.output.push(args[0].render());
        }
        if key == "seven" {
            return Value::Number(7);
        }
        Value::none()
    }

    fn text_keyword(&mut self, keyword: &Token) {
        if let TokenTypes::Identifier { value } = &keyword.token_type {
            self.warnings.push(value.clone());
        }
    }
}

fn tokens(source: &str) -> Vec<Token> {
    Tokenizer::from_string(source.to_string()).tokenize().unwrap()
}

fn tree(source: &str, config: &Config) -> AST {
    parse(&tokens(source), config).unwrap()
}

fn run_with(source: &str, config: &Config) -> (Result<Value, ExecError>, Recorder, Environment) {
    let ast = tree(source, config);
    let mut env = Environment::new();
    env.add_rust_function("print", vec!["value".to_string()]);
    let mut session = Session::new(Recorder::new());
    let result = execute(&ast, &mut env, &mut session);
    (result, session.host, env)
}

fn run(source: &str) -> (Result<Value, ExecError>, Recorder, Environment) {
    run_with(source, &Config::default())
}

fn number(v: Option<Value>) -> i64 {
    match v {
        Some(Value::Number(n)) => n,
        other => panic!("not a number: {:?}", other),
    }
}

#[test]
fn end_to_end_prints_sum() {
    let (result, host, _) = run("var x = 1; var y = 2; print(x + y);");
    assert_eq!(host.output, vec!["3".to_string()]);
    assert!(matches!(result, Ok(Value::Option(None))));
    assert_eq!(host.warnings, vec!["var".to_string(), "var".to_string()]);
}

#[test]
fn symbolic_definitions_raise_no_advisory() {
    let (result, host, _) = run("$ x = 1; $ y = 2; print(x + y);");
    assert_eq!(host.output, vec!["3".to_string()]);
    assert!(result.is_ok());
    assert!(host.warnings.is_empty());
}

#[test]
fn configured_keyword_is_tolerated() {
    let config = Config::with_keywords("function".to_string(), "let".to_string());
    let (result, host, _) = run_with("let x = 1; let y = 2; print(x + y);", &config);
    assert_eq!(host.output, vec!["3".to_string()]);
    assert!(matches!(result, Ok(Value::Option(None))));
    assert_eq!(host.warnings, vec!["let".to_string(), "let".to_string()]);
    let with_var = pack(&tree("var x = 1; var y = 2; print(x + y);", &config));
    let with_let = pack(&tree("let x = 1; let y = 2; print(x + y);", &config));
    assert_eq!(with_var, with_let);
}

#[test]
fn function_keyword_advisory_once_per_definition() {
    let config = Config::with_keywords("fn".to_string(), "let".to_string());
    let (result, host, _) = run_with("fn f() { print(1); }; f(); function g() { }; g();", &config);
    assert!(result.is_ok());
    assert_eq!(host.output, vec!["1".to_string()]);
    assert_eq!(host.warnings, vec!["fn".to_string(), "function".to_string()]);
}

#[test]
fn adds_numbers() {
    let (result, _, env) = run("$ x = 2 + 3;");
    assert!(result.is_ok());
    assert_eq!(number(env.get("x")), 5);
}

#[test]
fn concatenates_strings() {
    let (result, _, env) = run("$ s = \"a\" + \"b\";");
    assert!(result.is_ok());
    match env.get("s") {
        Some(Value::String(s)) => assert_eq!(s, "ab"),
        other => panic!("not a string: {:?}", other),
    }
}

#[test]
fn subtracting_a_string_fails() {
    let (result, _, _) = run("$ x = 2 - \"x\";");
    assert_eq!(result.unwrap_err(), ExecError::CannotSubtract);
}

#[test]
fn adding_mixed_values_fails() {
    let (result, _, _) = run("$ x = 2 + \"x\";");
    assert_eq!(result.unwrap_err(), ExecError::CannotAdd);
}

#[test]
fn negates_numbers() {
    let (result, _, env) = run("$ x = -4; $ y = +4; $ z = 10 - 3 - 2;");
    assert!(result.is_ok());
    assert_eq!(number(env.get("x")), -4);
    assert_eq!(number(env.get("y")), 4);
    // terms group to the right: 10 - (3 - 2)
    assert_eq!(number(env.get("z")), 9);
}

#[test]
fn negating_a_string_fails() {
    let (result, _, _) = run("$ x = -\"a\";");
    assert_eq!(result.unwrap_err(), ExecError::CannotNegate);
}

#[test]
fn overflow_is_an_error() {
    let (result, _, _) = run("$ x = 9223372036854775807 + 1;");
    assert_eq!(result.unwrap_err(), ExecError::Overflow);
}

#[test]
fn factors_and_groups_are_not_evaluated() {
    let (result, _, _) = run("$ x = 2 * 3;");
    assert_eq!(result.unwrap_err(), ExecError::Unevaluated);
    let (result, _, _) = run("$ x = (2);");
    assert_eq!(result.unwrap_err(), ExecError::Unevaluated);
}

#[test]
fn callee_definitions_do_not_leak() {
    let (result, host, env) = run("# f() { print(outer); $ inner = 5; }; $ outer = 7; f(); print(inner);");
    assert_eq!(host.output, vec!["7".to_string()]);
    assert_eq!(result.unwrap_err(), ExecError::UndefinedVariable("inner".to_string()));
    assert_eq!(env.depth(), 1);
}

#[test]
fn callee_sees_caller_frame_at_call_time() {
    let (result, host, _) = run("# f() { print(x); }; $ x = 1; f(); x = 2; f();");
    assert!(result.is_ok());
    assert_eq!(host.output, vec!["1".to_string(), "2".to_string()]);
}

#[test]
fn undefined_function_is_fatal() {
    let (result, _, _) = run("nothing();");
    assert_eq!(result.unwrap_err(), ExecError::UndefinedFunction("nothing".to_string()));
    let (result, _, _) = run("# f() { nothing(); }; f();");
    assert_eq!(result.unwrap_err(), ExecError::UndefinedFunction("nothing".to_string()));
}

#[test]
fn undefined_variable_is_fatal() {
    let (result, _, _) = run("print(y);");
    assert_eq!(result.unwrap_err(), ExecError::UndefinedVariable("y".to_string()));
    let (result, _, _) = run("# f() { print(z); }; f();");
    assert_eq!(result.unwrap_err(), ExecError::UndefinedVariable("z".to_string()));
    let mut env = Environment::new();
    assert!(env.get("y").is_none());
    env.enter();
    assert!(env.get("y").is_none());
}

#[test]
fn assignment_to_undefined_is_fatal() {
    let (result, _, _) = run("x = 1;");
    assert_eq!(result.unwrap_err(), ExecError::UndefinedVariable("x".to_string()));
    let (result, _, _) = run("# f() { x = 1; }; f();");
    assert_eq!(result.unwrap_err(), ExecError::UndefinedVariable("x".to_string()));
}

#[test]
fn assignment_reaches_enclosing_frame() {
    let (result, host, env) = run("$ x = 1; # f() { x = 2; }; f(); print(x);");
    assert!(result.is_ok());
    assert_eq!(host.output, vec!["2".to_string()]);
    assert_eq!(number(env.get("x")), 2);

    let mut env = Environment::new();
    env.define("x", Value::Number(1));
    env.enter();
    env.assign("x", Value::Number(3)).unwrap();
    assert_eq!(number(env.get("x")), 3);
    env.leave_to(1);
    assert_eq!(number(env.get("x")), 3);
}

#[test]
fn definition_shadows_in_current_frame_only() {
    let mut env = Environment::new();
    env.define("x", Value::Number(1));
    env.enter();
    env.define("x", Value::Number(2));
    assert_eq!(number(env.get("x")), 2);
    env.leave_to(1);
    assert_eq!(number(env.get("x")), 1);
}

#[test]
fn calling_a_non_function_fails() {
    let (result, _, _) = run("$ x = 1; x();");
    assert_eq!(result.unwrap_err(), ExecError::NotCallable("x".to_string()));
}

#[test]
fn too_many_arguments_fail() {
    let (result, _, _) = run("# f() { }; f(1);");
    assert_eq!(result.unwrap_err(), ExecError::TooManyArguments("f".to_string()));
    let (result, _, _) = run("print(1, 2);");
    assert_eq!(result.unwrap_err(), ExecError::TooManyArguments("print".to_string()));
}

#[test]
fn runaway_recursion_stops() {
    let (result, _, _) = run("# f() { f(); }; f();");
    assert_eq!(result.unwrap_err(), ExecError::TooDeep);
}

#[test]
fn block_result_is_last_statement() {
    let config = Config::default();
    let mut env = Environment::new();
    env.add_rust_function("seven", Vec::new());
    let mut host = Session::new(Recorder::new());
    let ast = tree("$ a = 1; seven();", &config);
    assert!(matches!(execute(&ast, &mut env, &mut host), Ok(Value::Number(7))));
    let ast = tree("seven(); $ a = 1;", &config);
    assert!(matches!(execute(&ast, &mut env, &mut host), Ok(Value::Option(None))));
    let ast = tree("# f() { seven(); }; f();", &config);
    assert!(matches!(execute(&ast, &mut env, &mut host), Ok(Value::Number(7))));
    let empty = tree("", &config);
    assert!(matches!(execute(&empty, &mut env, &mut host), Ok(Value::Option(None))));
}

#[test]
fn pack_writes_symbolic_text() {
    let source = "var x = 1;\nfunction f() {\n\tprint(x);\n};\nf();";
    let packed = pack(&tree(source, &Config::default()));
    assert_eq!(packed, "$ x = 1;\n# f() {\n\tprint(x);\n};\nf();");
}

#[test]
fn pack_covers_every_statement() {
    let source = "// note\n$ s = \"hi\" + name; s = -2; call(a, 1 - 2);";
    let packed = pack(&tree(source, &Config::default()));
    assert_eq!(packed, "// note;\n$ s = \"hi\" + name;\ns = -2;\ncall(a, 1 - 2);");
}

#[test]
fn round_trip_keeps_behaviour() {
    let source = "$ x = 1; # f() { print(x + 1); }; f(); x = 5; f();";
    let packed = pack(&tree(source, &Config::default()));
    let (first, host_a, _) = run(source);
    let (second, host_b, _) = run(&packed);
    assert!(first.is_ok() && second.is_ok());
    assert_eq!(host_a.output, vec!["2".to_string(), "6".to_string()]);
    assert_eq!(host_a.output, host_b.output);
}

#[test]
fn packing_twice_changes_nothing() {
    let source = "var a = \"x\"; function g() { print(a); $ b = 2; }; g();";
    let once = pack(&tree(source, &Config::default()));
    let twice = pack(&tree(&once, &Config::default()));
    assert_eq!(once, twice);
}

#[test]
fn unpack_writes_keywords() {
    let config = Config::default();
    assert_eq!(unpack("$ x = 1; # f() { };".to_string(), &config), "var x = 1; function f() { };");
    let config = Config::with_keywords("fun".to_string(), "let".to_string());
    assert_eq!(unpack("$$#".to_string(), &config), "letletfun");
    assert_eq!(unpack(String::new(), &config), "");
}

#[test]
fn keyword_matching() {
    let config = Config::with_keywords("fun".to_string(), "let".to_string());
    assert!(config.match_function_keyword("#"));
    assert!(config.match_function_keyword("function"));
    assert!(config.match_function_keyword("fun"));
    assert!(!config.match_function_keyword("var"));
    assert!(config.match_variable_keyword("$"));
    assert!(config.match_variable_keyword("var"));
    assert!(config.match_variable_keyword("let"));
    assert!(!config.match_variable_keyword("fun"));
    let config = Config::default();
    assert_eq!(config.function_keyword, "function");
    assert_eq!(config.variable_keyword, "var");
}

#[test]
fn scans_symbols_and_positions() {
    let ts = tokens("x = 12;\n  y(\"a b\")");
    let kinds: Vec<TokenTypes> = ts.iter().map(|t| t.token_type.clone()).collect();
    assert!(matches!(&kinds[0], TokenTypes::Identifier { value } if value == "x"));
    assert!(matches!(kinds[1], TokenTypes::Equals));
    assert!(matches!(kinds[2], TokenTypes::Number { value: 12 }));
    assert!(matches!(kinds[3], TokenTypes::Semi));
    assert!(matches!(&kinds[4], TokenTypes::Identifier { value } if value == "y"));
    assert!(matches!(kinds[5], TokenTypes::OpenParen));
    assert!(matches!(&kinds[6], TokenTypes::String { value } if value == "a b"));
    assert!(matches!(kinds[7], TokenTypes::CloseParen));
    assert_eq!(ts.len(), 8);
    assert_eq!((ts[2].line, ts[2].start, ts[2].end), (1, 4, 6));
    assert_eq!(ts[2].line_contents, "x = 12;");
    assert_eq!((ts[4].line, ts[4].start, ts[4].end), (2, 2, 3));
    assert_eq!(ts[4].line_contents, "  y(\"a b\")");
}

#[test]
fn scans_comments_and_identifiers() {
    let ts = tokens("//   a note  \nabc1+/");
    assert!(matches!(&ts[0].token_type, TokenTypes::Comment { value } if value == "a note"));
    assert!(matches!(&ts[1].token_type, TokenTypes::Identifier { value } if value == "abc1"));
    assert!(matches!(ts[2].token_type, TokenTypes::Plus));
    assert!(matches!(ts[3].token_type, TokenTypes::Slash));
    assert_eq!(ts.len(), 4);
    let ts = tokens("// last");
    assert!(matches!(&ts[0].token_type, TokenTypes::Comment { value } if value == "last"));
}

#[test]
fn scan_errors() {
    let r = Tokenizer::from_string("\"open".to_string()).tokenize();
    assert_eq!(r.unwrap_err(), ScanError::UnterminatedString);
    let r = Tokenizer::from_string("99999999999999999999".to_string()).tokenize();
    assert_eq!(r.unwrap_err(), ScanError::NumberTooLarge);
    assert!(Tokenizer::from_string(String::new()).tokenize().unwrap().is_empty());
}

#[test]
fn parse_errors() {
    let config = Config::default();
    assert_eq!(parse(&tokens("$ x = 1"), &config).unwrap_err(), ParseError::UnexpectedEnd);
    assert_eq!(parse(&tokens("$ x = 1 $"), &config).unwrap_err(), ParseError::ExpectedSemicolon);
    assert_eq!(parse(&tokens("x + 1;"), &config).unwrap_err(), ParseError::UnimplementedStatement);
    assert_eq!(parse(&tokens("}"), &config).unwrap_err(), ParseError::TrailingTokens);
    assert_eq!(parse(&tokens("# f( { };"), &config).unwrap_err(), ParseError::ExpectedCloseParen);
    assert_eq!(parse(&tokens("# f() { $ y = 1; ;"), &config).unwrap_err(), ParseError::ExpectedCloseCurly);
    assert_eq!(parse(&tokens("$ x = ;"), &config).unwrap_err(), ParseError::ExpectedOperand);
    assert_eq!(parse(&tokens("f(1 2);"), &config).unwrap_err(), ParseError::ExpectedCloseParen);
}

#[test]
fn parses_calls_with_arguments() {
    let ast = tree("f(1, \"b\", c);", &Config::default());
    match ast {
        AST::Block { statements } => match &statements[0] {
            AST::FunctionCall { name, args } => {
                assert_eq!(name, "f");
                assert_eq!(args.len(), 3);
            }
            other => panic!("not a call: {:?}", other),
        },
        other => panic!("not a block: {:?}", other),
    }
}

#[test]
fn renders_values() {
    assert_eq!(Value::Number(-12).render(), "-12");
    assert_eq!(Value::String("hi".to_string()).render(), "hi");
    assert_eq!(Value::none().render(), "");
    assert_eq!(Value::Option(Some(Box::new(Value::Number(3)))).render(), "3");
    let list = Value::List(vec![Value::Number(1), Value::String("a".to_string())]);
    assert_eq!(list.render(), "[1, a]");
    let native = Value::RustFunction { args: vec!["value".to_string()], body: "print".to_string() };
    assert_eq!(native.render(), "fn(value) { [native] }");
    let function = Value::Function { args: vec!["a".to_string(), "b".to_string()], body: Box::new(AST::Block { statements: Vec::new() }) };
    assert_eq!(function.render(), "fn(a, b) { ... }");
}

#[test]
fn underlines_a_token() {
    let ts = tokens("\n  var x = 1;");
    let layout = transcript::diagnostic::underline(&ts[0], transcript::diagnostic::Severity::Warning);
    assert_eq!(layout.header, "2 |   var x = 1;");
    assert_eq!(layout.indent, " ".repeat(6));
    assert_eq!(layout.marks, "~~~");
    let layout = transcript::diagnostic::underline(&ts[1], transcript::diagnostic::Severity::Error);
    assert_eq!(layout.indent, " ".repeat(10));
    assert_eq!(layout.marks, "\u{203E}");
}

#[test]
fn frames_stack_up_and_drop() {
    let mut outer = Environment::new();
    outer.define("a", Value::Number(1));
    let mut inner = Environment::from_enclosing(outer);
    assert_eq!(inner.depth(), 2);
    assert!(inner.is_well_formed());
    assert_eq!(number(inner.get("a")), 1);
    inner.define("b", Value::Number(2));
    inner.leave_to(1);
    assert!(inner.get("b").is_none());
    assert_eq!(inner.assign("b", Value::Number(3)).unwrap_err(), ExecError::UndefinedVariable("b".to_string()));
}

#[test]
fn parses_a_block_from_a_position() {
    let ts = tokens("{ $ a = 1; b(); } c();");
    let (block, end) = transcript::parse_block(&ts, 1, &Config::default()).unwrap();
    assert_eq!(end, 10);
    assert_eq!(pack(&block), "$ a = 1;\nb();");
}

#[test]
fn print_sees_bindings_through_the_call_chain() {
    let source = "var x = \"c\"; function f() { print(x); var x = \"f\"; print(x); }; function g() { var x = \"g\"; f(); }; f(); g(); print(x);";
    let (result, host, _) = run(source);
    assert!(result.is_ok());
    let expected: Vec<String> = ["c", "f", "g", "f", "c"].iter().map(|s| s.to_string()).collect();
    assert_eq!(host.output, expected);
}

#[test]
fn undefined_call_leaves_host_alone() {
    let (result, host, _) = run("$ y = 1; nothing(1, z);");
    assert_eq!(result.unwrap_err(), ExecError::UndefinedFunction("nothing".to_string()));
    assert!(host.output.is_empty());
    assert!(host.warnings.is_empty());
}
