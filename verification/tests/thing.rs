use nature_common::error::NatureError;
use nature_common::thing::Thing;
use nature_common::thing_type::ThingType;

#[test]
fn thing_key_can_not_be_null() {
    let key = String::new();
    let rtn = Thing::new(&key);
    if let Err(NatureError::VerifyError(x)) = rtn {
        assert_eq!(x, "key length can't be zero");
    } else {
        panic!("should get error")
    }

    let key = "/".to_string();
    let rtn = Thing::new(&key);
    if let Err(NatureError::VerifyError(x)) = rtn {
        assert_eq!(x, "key length can't be zero");
    } else {
        panic!("should get error")
    }
}

#[test]
fn key_can_be_empty_except_for_null_thing_type() {
    // key is empty
    let thing = Thing::new_with_type("", ThingType::Null).unwrap();
    assert_eq!(ThingType::Null, thing.get_thing_type());
    assert_eq!("/N", thing.get_full_key());

    // key is not empty
    let thing = Thing::new_with_type("not empty", ThingType::Null).unwrap();
    assert_eq!(ThingType::Null, thing.get_thing_type());
    assert_eq!("/N", thing.get_full_key());

    // call `new_null` directly
    let thing = Thing::new_null();
    assert_eq!(ThingType::Null, thing.get_thing_type());
    assert_eq!("/N", thing.get_full_key());
}

/// also test for removing last separator and Business prefix
#[test]
fn thing_standardize_no_separator_at_beginning() {
    let key = "a/b/c/".to_string();
    let rtn = Thing::new(&key);
    assert_eq!("/a/b/c", rtn.unwrap().get_key());
    let rtn = Thing::new(&key);
    assert_eq!("/B/a/b/c", rtn.unwrap().get_full_key());
}

#[test]
fn thing_get_full_key() {
    let key = "a/b/c/".to_string();
    let rtn = Thing::new_with_type(&key.clone(), ThingType::System);
    assert_eq!(rtn.unwrap().get_full_key(), "/S/a/b/c");
    let rtn = Thing::new_with_type(&key, ThingType::Dynamic);
    assert_eq!(rtn.unwrap().get_full_key(), "/D/a/b/c");
    let rtn = Thing::new_with_type(&key, ThingType::Business);
    assert_eq!(rtn.unwrap().get_full_key(), "/B/a/b/c");
    let rtn = Thing::new_with_type(&key, ThingType::Null);
    assert_eq!(rtn.unwrap().get_full_key(), "/N");
}

#[test]
fn from_full_key() {
    // error full_key
    assert_eq!(Err(NatureError::VerifyError("illegal format for `full_key` : ".to_string())), Thing::from_full_key("", 1));
    assert_eq!(Err(NatureError::VerifyError("illegal format for `full_key` : /s".to_string())), Thing::from_full_key("/s", 1));
    assert_eq!(Err(NatureError::VerifyError("illegal format for `full_key` : /ss".to_string())), Thing::from_full_key("/ss", 1));
    assert_eq!(Err(NatureError::VerifyError("unknow prefix : [/s]".to_string())), Thing::from_full_key("/s/s", 1));
    assert_eq!(Thing::new_with_type("/N", ThingType::Null), Thing::from_full_key("/N", 1));
    assert_eq!(Err(NatureError::VerifyError("illegal format for `full_key` : /Na".to_string())), Thing::from_full_key("/Na", 1));
    assert_eq!(Thing::new_with_type("/a", ThingType::Null), Thing::from_full_key("/N/a", 1));
    assert_eq!(Thing::new_with_type("/hello", ThingType::Dynamic), Thing::from_full_key("/D/hello", 1));
    assert_eq!(Thing::new_with_type("/world", ThingType::System), Thing::from_full_key("/S/world", 1));
    assert_eq!(Thing::new_with_type("/my", ThingType::Business), Thing::from_full_key("/B/my", 1));
}

#[test]
fn thing_type_can_be_changed() {
    let mut t = Thing::new_with_version_and_type("a", 4, ThingType::Business).unwrap();
    t.set_thing_type(ThingType::Dynamic);
    assert_eq!(t.get_thing_type(), ThingType::Dynamic);
    assert_eq!(t.get_full_key(), "/D/a");
    assert_eq!(t.version, 4);
    assert_eq!(t.get_version(), 4);
    assert_eq!(Thing::default().get_full_key(), "/B");
    assert_eq!(Thing::from_full_key("/B/", 1), Err(NatureError::VerifyError("key length can't be zero".to_string())));
    assert_eq!(Thing::from_full_key("/N/x", 9).unwrap().version, 1);
}

#[test]
fn thing_key_is_standardized_in_place() {
    let mut key = "a/b/".to_string();
    assert_eq!(Thing::key_standardize(&mut key), Ok(()));
    assert_eq!(key, "/a/b");
    let mut key = "/".to_string();
    assert!(Thing::key_standardize(&mut key).is_err());
    assert_eq!(key, "");
}

#[test]
fn thing_check_keeps_only_the_fault() {
    let t = Thing::new("a").unwrap();
    assert_eq!(t.check(|x: &Thing| -> Result<String, NatureError> { Ok(x.get_key()) }), Ok(()));
    assert_eq!(
        t.check(|_: &Thing| -> Result<(), NatureError> {
            Err(NatureError::LogicalError("no".to_string()))
        }),
        Err(NatureError::LogicalError("no".to_string()))
    );
}
