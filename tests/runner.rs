use dbm::errors::MakerErrorType;
use dbm::native_functions::reply_text;
use dbm::runner::BotRegistry;
use dbm::values::{Number, StringValue};

#[test]
fn registry_starts_and_stops_bots() {
    let mut registry: BotRegistry<&str> = BotRegistry::new();
    let name = "alpha".to_string();
    assert!(registry.start(1, &name, "first").is_ok());
    assert!(registry.start(2, &"beta".to_string(), "second").is_ok());
    let (e, handle) = registry.start(1, &name, "again").unwrap_err();
    assert_eq!(e.error_type, MakerErrorType::BotRunnerError);
    assert_eq!(e.message, "Bot alpha already running");
    assert_eq!(handle, "again");
    let mut ids = registry.running_ids();
    ids.sort();
    assert_eq!(ids, vec![1, 2]);
    assert!(registry.is_running(2));
    assert_eq!(registry.stop(1), Some("first"));
    assert_eq!(registry.stop(1), None);
    assert_eq!(registry.running_ids(), vec![2]);
    assert!(!registry.is_running(1));
}

#[test]
fn reply_text_checks_its_argument() {
    assert_eq!(reply_text(&vec![StringValue::make("hi".to_string())]).unwrap(), "hi");
    assert_eq!(
        reply_text(&vec![Number::make("1".to_string())]).unwrap_err().message,
        "Invalid type for argument 0"
    );
    let two = vec![StringValue::make("a".to_string()), StringValue::make("b".to_string())];
    let e = reply_text(&two).unwrap_err();
    assert_eq!(e.error_type, MakerErrorType::RuntimeError);
    assert_eq!(e.message, "Too many args provided! Expected exactly one argument");
    assert_eq!(
        reply_text(&Vec::new()).unwrap_err().message,
        "Not enough args provided! Missing arg at argument 0"
    );
}
