use dbm::errors::{MakerError, MakerErrorType};
use dbm::lexer::lex;
use dbm::nodes::Expression;
use dbm::parser::Parser;
use dbm::runtime::{Interpreter, NativeHost};
use dbm::scope::Scope;
use dbm::script::run_script;
use dbm::native_functions::{generate_from_message, reply_text, REPLY};
use dbm::values::{MakerFuture, NativeFunction, Null, Object, RuntimeValue, StringValue};

struct Host {
    invoked: Vec<(u64, Vec<String>)>,
    resolved: Vec<u64>,
}

impl Host {
    fn new() -> Host {
        Host { invoked: Vec::new(), resolved: Vec::new() }
    }
}

impl NativeHost for Host {
    fn invoke(&mut self, function: u64, args: Vec<RuntimeValue>) -> Result<RuntimeValue, MakerError> {
        self.invoked.push((function, args.iter().map(|a| a.to_string()).collect()));
        if function != REPLY {
            return Err(MakerError::new("unknown capability".to_string(), MakerErrorType::RuntimeError));
        }
        reply_text(&args)?;
        Ok(RuntimeValue::Future(MakerFuture { id: 7 }))
    }

    fn resolve(&mut self, pending: u64) -> Result<RuntimeValue, MakerError> {
        self.resolved.push(pending);
        Ok(Null::make())
    }
}

fn message(content: &str) -> RuntimeValue {
    generate_from_message("42".to_string(), content.to_string())
}

fn run(code: &str, host: &mut Host) -> Result<RuntimeValue, MakerError> {
    run_script(code.to_string(), "test".to_string(), message("ping"), host)
}

fn number_text(r: &Result<RuntimeValue, MakerError>) -> String {
    match r {
        Ok(RuntimeValue::Number(n)) => n.value.clone(),
        other => panic!("expected a number, got {:?}", other),
    }
}

fn boolean(r: &Result<RuntimeValue, MakerError>) -> bool {
    match r {
        Ok(RuntimeValue::Boolean(b)) => b.value,
        other => panic!("expected a boolean, got {:?}", other),
    }
}

fn error(r: Result<RuntimeValue, MakerError>) -> MakerError {
    match r {
        Err(e) => e,
        Ok(v) => panic!("expected an error, got {:?}", v),
    }
}

#[test]
fn declared_variable_is_read_back() {
    let mut host = Host::new();
    let r = run("var x = 5\nx", &mut host);
    assert_eq!(number_text(&r), "5");
    assert_eq!(number_text(&r).parse::<f64>().unwrap(), 5.0);
}

#[test]
fn message_content_is_read() {
    let mut host = Host::new();
    match run("message.content", &mut host) {
        Ok(RuntimeValue::StringValue(s)) => assert_eq!(s.value, "ping"),
        other => panic!("{:?}", other),
    }
}

#[test]
fn reply_is_invoked_and_awaited() {
    let mut host = Host::new();
    let r = run("message.reply(\"hi\")", &mut host);
    assert!(matches!(r, Ok(RuntimeValue::Null(_))));
    assert_eq!(host.invoked, vec![(REPLY, vec!["hi".to_string()])]);
    assert_eq!(host.resolved, vec![7]);
}

#[test]
fn message_id_is_read() {
    let mut host = Host::new();
    match run("message.id", &mut host) {
        Ok(RuntimeValue::StringValue(s)) => assert_eq!(s.value, "42"),
        other => panic!("{:?}", other),
    }
}

#[test]
fn reply_without_argument_fails() {
    let mut host = Host::new();
    let e = error(run("message.reply()", &mut host));
    assert_eq!(e.message, "Not enough args provided! Missing arg at argument 0");
}

#[test]
fn reply_with_two_arguments_fails() {
    let mut host = Host::new();
    let e = error(run("message.reply(\"a\", \"b\")", &mut host));
    assert_eq!(e.message, "Too many args provided! Expected exactly one argument");
    assert!(host.resolved.is_empty());
}

#[test]
fn reply_with_wrong_argument_fails() {
    let mut host = Host::new();
    let e = error(run("message.reply(5)", &mut host));
    assert_eq!(e.message, "Invalid type for argument 0");
    assert!(host.resolved.is_empty());
}

#[test]
fn if_block_declaration_stays_visible() {
    let mut host = Host::new();
    let r = run("if 1 do var y = 2 end\ny", &mut host);
    assert_eq!(number_text(&r), "2");
}

#[test]
fn false_condition_takes_else_branch() {
    let mut host = Host::new();
    let r = run("if 0 do 1 end else do 2 end", &mut host);
    assert_eq!(number_text(&r), "2");
    let r = run("if \"\" do 1 end else if 3 do 4 end", &mut host);
    assert_eq!(number_text(&r), "4");
    let r = run("if 0 do 1 end", &mut host);
    assert!(matches!(r, Ok(RuntimeValue::Null(_))));
}

#[test]
fn unterminated_string_is_a_lexer_error() {
    let mut host = Host::new();
    let e = error(run("\"abc", &mut host));
    assert_eq!(e.error_type, MakerErrorType::LexerError);
    assert_eq!(e.message, "Expected end of string");
    let loc = e.location.unwrap();
    assert_eq!((loc.start, loc.end, loc.line), (0, 0, 0));
}

#[test]
fn equality_within_and_across_kinds() {
    let mut host = Host::new();
    assert!(boolean(&run("5 == 5", &mut host)));
    assert!(!boolean(&run("5 == \"5\"", &mut host)));
    assert!(boolean(&run("007 == 7", &mut host)));
    assert!(!boolean(&run("5 == 6", &mut host)));
    assert!(boolean(&run("\"a\" == \"a\"", &mut host)));
    assert!(!boolean(&run("message == message", &mut host)));
}

#[test]
fn redeclaring_a_variable_fails() {
    let mut host = Host::new();
    let e = error(run("var x = 1\nvar x = 2", &mut host));
    assert_eq!(e.error_type, MakerErrorType::RuntimeError);
    assert_eq!(e.message, "The variable x already exists");
}

#[test]
fn redeclaration_keeps_first_binding() {
    let mut scope = Scope::new();
    let name = "x".to_string();
    assert!(scope.declare(&name, StringValue::make("one".to_string())).is_ok());
    let e = scope.declare(&name, StringValue::make("two".to_string())).unwrap_err();
    assert_eq!(e.message, "The variable x already exists");
    match scope.get(&name) {
        Ok(RuntimeValue::StringValue(s)) => assert_eq!(s.value, "one"),
        other => panic!("{:?}", other),
    }
}

#[test]
fn undeclared_variable_fails() {
    let mut host = Host::new();
    let e = error(run("z", &mut host));
    assert_eq!(e.error_type, MakerErrorType::RuntimeError);
    assert_eq!(e.message, "The variable z does not exist");
    assert_eq!(e.location.unwrap().context, "<unknown>");
}

#[test]
fn calling_a_number_fails() {
    let mut host = Host::new();
    let e = error(run("5(1)", &mut host));
    assert_eq!(e.message, "Cannot call a number");
    assert_eq!(e.location.unwrap().start, 1);
    assert!(host.invoked.is_empty());
}

#[test]
fn indexing_errors() {
    let mut host = Host::new();
    assert_eq!(error(run("5.x", &mut host)).message, "Cannot index a number");
    assert_eq!(error(run("message.author", &mut host)).message, "Object does not have key author");
    assert_eq!(
        error(run("message.\"content\"", &mut host)).message,
        "Can only index an object with an identifier!"
    );
}

#[test]
fn empty_program_is_null() {
    let mut host = Host::new();
    assert!(matches!(run("", &mut host), Ok(RuntimeValue::Null(_))));
}

#[test]
fn host_error_is_propagated() {
    let mut host = Host::new();
    let r = run_script(
        "message.reply(\"hi\")".to_string(),
        "test".to_string(),
        Object::make(vec![("reply".to_string(), RuntimeValue::NativeFunction(NativeFunction { id: 9 }))]),
        &mut host,
    );
    assert_eq!(error(r).message, "unknown capability");
}

#[test]
fn interpreter_evaluates_parsed_block() {
    let tokens = lex("var a = \"x\"\na == \"x\"".to_string(), "ctx".to_string()).unwrap();
    let block = Parser::new(tokens).parse().unwrap();
    let mut interpreter = Interpreter::new(Scope::new());
    let mut host = Host::new();
    let r = interpreter.evaluate(&mut host, &Expression::Block(block));
    assert!(boolean(&r));
    match interpreter.scope.get(&"a".to_string()) {
        Ok(RuntimeValue::StringValue(s)) => assert_eq!(s.value, "x"),
        other => panic!("{:?}", other),
    }
}
