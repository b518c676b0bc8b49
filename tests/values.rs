use dbm::errors::{MakerError, MakerErrorType};
use dbm::rs2js::{Error, RunningBotsUpdate, SenderType};
use dbm::values::{equals, Boolean, MakerFuture, NativeFunction, Null, Number, Object, RuntimeValue, StringValue};

#[test]
fn truthiness() {
    assert!(Number::make("3".to_string()).is_truthy());
    assert!(!Number::make("000".to_string()).is_truthy());
    assert!(StringValue::make("a".to_string()).is_truthy());
    assert!(!StringValue::make(String::new()).is_truthy());
    assert!(Boolean::make(true).is_truthy());
    assert!(!Null::make().is_truthy());
    assert!(!Object::make(Vec::new()).is_truthy());
}

#[test]
fn type_labels_and_text() {
    assert_eq!(Number::make("1".to_string()).type_label(), "number");
    assert_eq!(RuntimeValue::NativeFunction(NativeFunction { id: 1 }).type_label(), "native_function");
    assert_eq!(RuntimeValue::Future(MakerFuture { id: 1 }).type_label(), "future");
    assert_eq!(Number::make("0012".to_string()).to_string(), "12");
    assert_eq!(Number::make("00".to_string()).to_string(), "0");
    assert_eq!(Boolean::make(false).to_string(), "false");
    assert_eq!(Null::make().to_string(), "null");
}

#[test]
fn equality_rules() {
    assert!(equals(&Null::make(), &Null::make()));
    assert!(equals(&Number::make("10".to_string()), &Number::make("010".to_string())));
    assert!(!equals(&Number::make("10".to_string()), &Number::make("1".to_string())));
    assert!(!equals(&Boolean::make(true), &StringValue::make("true".to_string())));
    let f = RuntimeValue::NativeFunction(NativeFunction { id: 1 });
    assert!(!equals(&f, &RuntimeValue::NativeFunction(NativeFunction { id: 1 })));
}

#[test]
fn duplicate_copies_nested_objects() {
    let inner = Object::make(vec![("k".to_string(), Number::make("1".to_string()))]);
    let outer = Object::make(vec![("inner".to_string(), inner)]);
    let copy = outer.duplicate();
    assert_eq!(format!("{:?}", copy), format!("{:?}", outer));
}

#[test]
fn error_constructors() {
    let e = MakerError::from(Some("boom".to_string()), MakerErrorType::BotRunnerError);
    assert_eq!((e.message.as_str(), e.source.as_deref()), ("boom", Some("boom")));
    let e = MakerError::from(None, MakerErrorType::UnknownDatabase);
    assert_eq!(e.message, "An error occured");
    assert!(e.source.is_none() && e.location.is_none());
    let e = MakerError::new("m".to_string(), MakerErrorType::BotAlreadyExists);
    assert_eq!(e.error_type, MakerErrorType::BotAlreadyExists);
}

#[test]
fn sender_ids() {
    let update = SenderType::RunningBotsUpdate(RunningBotsUpdate { list: vec![1, 2] });
    assert_eq!(update.get_sender_id(), "running_bots_update");
    let error = SenderType::Error(Error { error: MakerError::new("x".to_string(), MakerErrorType::BotRunnerError) });
    assert_eq!(error.get_sender_id(), "error");
}
