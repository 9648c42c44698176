use iai::iai;
use iai::registration::{register, RegistrationError};

#[test]
fn a_function_is_registered_under_its_names() {
    let registration = iai("fn bench_fibonacci() -> u64 { 10 }").ok().unwrap();
    assert_eq!(registration.function, "bench_fibonacci");
    assert_eq!(registration.wrapper, "wrap_bench_fibonacci");
    assert_eq!(registration.constant, "IAI_FUNC_bench_fibonacci");
}

#[test]
fn attributes_and_qualifiers_do_not_matter() {
    let item = "#[inline]\n/// Adds.\npub(crate) unsafe extern \"C\" fn add<T>(a: T) where T: Copy {}";
    let registration = iai(item).ok().unwrap();
    assert_eq!(registration.function, "add");
}

#[test]
fn other_items_are_refused() {
    for item in ["", "struct S;", "fn f()", "fn f() {} fn g() {}", "fn f( {}", "42"] {
        match iai(item) {
            Err(RegistrationError::NotAFunction(message)) => {
                assert!(!message.is_empty());
                assert_ne!(message, item);
            }
            other => panic!("{item}: {other:?}"),
        }
    }
    let error = iai("struct S;").err().unwrap();
    assert_eq!(
        error.message(),
        "`#[iai]` attribute expects a function item: expected `fn`"
    );
}

#[test]
fn raw_names_are_refused() {
    let error = iai("fn r#type() {}").err().unwrap();
    assert!(matches!(&error, RegistrationError::RawName(name) if name == "r#type"));
    assert_eq!(error.message(), "\"wrap_r#type\" is not a valid Ident");
    assert!(register(Ok("r#try".to_owned())).is_err());
    assert!(register(Ok("r".to_owned())).is_ok());
}

#[test]
fn different_functions_have_different_names() {
    let first = register(Ok("a".to_owned())).ok().unwrap();
    let second = register(Ok("b".to_owned())).ok().unwrap();
    assert_ne!(first.wrapper, second.wrapper);
    assert_ne!(first.constant, second.constant);
}

#[test]
fn what_the_parser_says_is_passed_on() {
    let error = register(Err("expected `fn`".to_owned())).err().unwrap();
    assert_eq!(
        error.message(),
        "`#[iai]` attribute expects a function item: expected `fn`"
    );
}
