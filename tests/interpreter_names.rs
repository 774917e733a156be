use slint_model::interpreter::{
    normalize_identifier, GetPropertyError, InvokeCallbackError, SetCallbackError,
    SetPropertyError, ValueType,
};

#[test]
fn identifiers_use_dashes() {
    assert_eq!(normalize_identifier("underscores-and-dashes_preserved"), "underscores-and-dashes-preserved");
    assert_eq!(normalize_identifier("My_Super_Global"), "My-Super-Global");
    assert_eq!(normalize_identifier("the-property"), "the-property");
    assert_eq!(normalize_identifier(""), "");
    assert_eq!(normalize_identifier("__"), "--");
}

#[test]
fn error_descriptions() {
    assert_eq!(GetPropertyError::NoSuchProperty.message(), "no such property");
    assert_eq!(SetPropertyError::WrongType.message(), "wrong type");
    assert_eq!(SetPropertyError::NoSuchProperty.message(), "no such property");
    assert_eq!(SetCallbackError::NoSuchCallback.message(), "no such callback");
    assert_eq!(InvokeCallbackError::NoSuchCallback.message(), "no such callback");
    assert_ne!(ValueType::Number, ValueType::Void);
}
