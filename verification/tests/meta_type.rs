use nature_common::error::NatureError;
use nature_common::meta_type::MetaType;
use nature_common::thing_type::ThingType;

#[test]
fn meta_type_get_profix() {
    assert_eq!("N", MetaType::Null.get_prefix());
    assert_eq!("S", MetaType::System.get_prefix());
    assert_eq!("D", MetaType::Dynamic.get_prefix());
    assert_eq!("B", MetaType::Business.get_prefix());
    assert_eq!("M", MetaType::Multi.get_prefix());
}

#[test]
fn meta_type_from_profix() {
    assert_eq!(MetaType::Null, MetaType::from_prefix("N").unwrap());
    assert_eq!(MetaType::Business, MetaType::from_prefix("B").unwrap());
    assert_eq!(MetaType::System, MetaType::from_prefix("S").unwrap());
    assert_eq!(MetaType::Dynamic, MetaType::from_prefix("D").unwrap());
    assert_eq!(MetaType::Multi, MetaType::from_prefix("M").unwrap());
    assert_eq!(Err(NatureError::VerifyError("unknow prefix : [/d]".to_string())), MetaType::from_prefix("/d"));
}

#[test]
fn check_type_test() {
    assert_eq!(Ok(()), MetaType::check_type("D:dynamic/target/is/null:1", MetaType::Dynamic));
}

#[test]
fn check_type_refuses_another_type() {
    assert_eq!(
        MetaType::check_type("D:dynamic/target/is/null:1", MetaType::Business),
        Err(NatureError::VerifyError("[D:dynamic/target/is/null:1]'s MetaType undefined".to_string()))
    );
    assert_eq!(
        MetaType::check_type("", MetaType::Business),
        Err(NatureError::VerifyError("[]'s MetaType undefined".to_string()))
    );
    assert_eq!(MetaType::check_type("B", MetaType::Business), Ok(()));
    assert_eq!(MetaType::default(), MetaType::Business);
}

#[test]
fn thing_type_get_profix() {
    assert_eq!("/N", ThingType::Null.get_prefix());
    assert_eq!("/S", ThingType::System.get_prefix());
    assert_eq!("/D", ThingType::Dynamic.get_prefix());
    assert_eq!("/B", ThingType::Business.get_prefix());
}

#[test]
fn thing_type_from_profix() {
    assert_eq!(ThingType::Null, ThingType::from_prefix("/N").unwrap());
    assert_eq!(ThingType::Business, ThingType::from_prefix("/B").unwrap());
    assert_eq!(ThingType::System, ThingType::from_prefix("/S").unwrap());
    assert_eq!(ThingType::Dynamic, ThingType::from_prefix("/D").unwrap());
    assert_eq!(Err(NatureError::VerifyError("unknow prefix : [/d]".to_string())), ThingType::from_prefix("/d"));
}
