use nature_common::error::NatureError;
use nature_common::meta::Meta;
use nature_common::meta_setting::MetaSetting;
use nature_common::meta_state::State;
use nature_common::meta_string::MetaString;
use nature_common::meta_type::MetaType;
use nature_common::text_map::TextSet;

fn state_meta(declaration: &str) -> Meta {
    let mut meta = Meta::new("/hello", 1, MetaType::Business).unwrap();
    match State::string_to_states(declaration) {
        Ok((ss, _)) => meta.set_states(Some(ss)).unwrap(),
        _ => panic!("should have some"),
    };
    meta
}

fn names(list: &[&str]) -> TextSet {
    let mut set = TextSet::new();
    for x in list {
        set.insert(x.to_string());
    }
    set
}

#[test]
fn meta_key_can_not_be_null() {
    let key = String::new();
    let rtn = Meta::new(&key, 1, MetaType::Business);
    if let Err(NatureError::VerifyError(x)) = rtn {
        assert_eq!(x, "key length can't be zero");
    } else {
        panic!("should get error")
    }

    let key = "/".to_string();
    let rtn = Meta::new(&key, 1, MetaType::Business);
    if let Err(NatureError::VerifyError(x)) = rtn {
        assert_eq!(x, "key length can't be zero");
    } else {
        panic!("should get error")
    }
}

#[test]
fn key_can_be_empty_except_for_null_meta_type() {
    // key is empty
    let meta = Meta::new("", 1, MetaType::Null).unwrap();
    assert_eq!(MetaType::Null, meta.get_meta_type());
    assert_eq!("/N", meta.get_full_key());

    // key is not empty
    let meta = Meta::new("not empty", 1, MetaType::Null).unwrap();
    assert_eq!(MetaType::Null, meta.get_meta_type());
    assert_eq!("/N", meta.get_full_key());
}

/// also test for removing last separator and Business prefix
#[test]
fn meta_standardize_no_separator_at_beginning() {
    let key = "a/b/c/".to_string();
    let rtn = Meta::new(&key, 1, MetaType::Business);
    assert_eq!("/a/b/c", rtn.unwrap().get_key());
    let rtn = Meta::new(&key, 1, MetaType::Business);
    assert_eq!("/B/a/b/c", rtn.unwrap().get_full_key());
}

#[test]
fn meta_get_full_key() {
    let key = "a/b/c/".to_string();
    let rtn = Meta::new(&key, 1, MetaType::System);
    assert_eq!(rtn.unwrap().get_full_key(), "/S/a/b/c");
    let rtn = Meta::new(&key, 1, MetaType::Dynamic);
    assert_eq!(rtn.unwrap().get_full_key(), "/D/a/b/c");
    let rtn = Meta::new(&key, 1, MetaType::Business);
    assert_eq!(rtn.unwrap().get_full_key(), "/B/a/b/c");
    let rtn = Meta::new(&key, 1, MetaType::Null);
    assert_eq!(rtn.unwrap().get_full_key(), "/N");
}

#[test]
fn from_meta_str() {
    // error full_key
    assert_eq!(Err(NatureError::VerifyError("illegal format for `full_key` : ".to_string())), Meta::from_string(":1"));
    assert_eq!(Err(NatureError::VerifyError("illegal format for `full_key` : /s".to_string())), Meta::from_string("/s:1"));
    assert_eq!(Err(NatureError::VerifyError("illegal format for `full_key` : /ss".to_string())), Meta::from_string("/ss:1"));
    assert_eq!(Err(NatureError::VerifyError("unknow prefix : [/s]".to_string())), Meta::from_string("/s/s:1"));
    assert_eq!(Meta::new("/N", 1, MetaType::Null), Meta::from_string("/N:1"));
    assert_eq!(Err(NatureError::VerifyError("illegal format for `full_key` : /Na".to_string())), Meta::from_string("/Na:1"));
    assert_eq!(Meta::new("/a", 1, MetaType::Null), Meta::from_string("/N/a:1"));
    assert_eq!(Meta::new("/hello", 1, MetaType::Dynamic), Meta::from_string("/D/hello:1"));
    assert_eq!(Meta::new("/world", 1, MetaType::System), Meta::from_string("/S/world:1"));
    assert_eq!(Meta::new("/my", 1, MetaType::Business), Meta::from_string("/B/my:1"));
}

#[test]
fn has_state_name_test() {
    let mut m = Meta::new("hello", 1, MetaType::Business).unwrap();
    assert_eq!(m.has_state_name("a"), false);
    let _ = m.set_states(Some(vec![State::Normal("a".to_string())]));
    assert_eq!(m.has_state_name("a"), true);
    assert_eq!(m.has_state_name("b"), false);
}

#[test]
fn meta_string_test() {
    let m = Meta::new("hello", 1, MetaType::Business).unwrap();
    assert_eq!(m.meta_string(), "/B/hello:1");
}

#[test]
fn not_a_state_meta() {
    let meta = Meta::new("/hello", 1, MetaType::Business).unwrap();
    let set: TextSet = TextSet::new();
    let rtn = meta.verify_state(&set);
    assert_eq!(rtn, Err(NatureError::VerifyError("[/B/hello:1] is not a state meta".to_string())))
}

#[test]
fn none_states() {
    let mut meta = Meta::new("/hello", 1, MetaType::Business).unwrap();
    let setting = MetaSetting {
        is_state: true,
        master: None,
        multi_meta: TextSet::new(),
        cache_saved: false,
    };
    meta.set_setting(Some(setting));
    let mut set: TextSet = TextSet::new();
    set.insert("a".to_string());
    let rtn = meta.verify_state(&set);
    assert_eq!(rtn, Err(NatureError::VerifyError("[a] does not defined in meta: /B/hello:1".to_string())))
}

#[test]
fn simple() {
    let mut meta = Meta::new("/hello", 1, MetaType::Business).unwrap();
    let _ = match State::string_to_states("a") {
        Ok((ss, _)) => meta.set_states(Some(ss)),
        _ => { panic!("should have some") }
    };
    let mut set: TextSet = TextSet::new();
    set.insert("a".to_string());
    let rtn = meta.verify_state(&set);
    assert_eq!(rtn, Ok(()))
}

#[test]
fn pure_parent() {
    let mut meta = Meta::new("/hello", 1, MetaType::Business).unwrap();
    let _ = match State::string_to_states("a1,a2,p1[a3,p2[p3[a,b,c]]]") {
        Ok((ss, _)) => meta.set_states(Some(ss)),
        _ => { panic!("should have some") }
    };
    let mut set: TextSet = TextSet::new();
    set.insert("d".to_string());
    let rtn = meta.verify_state(&set);
    assert_eq!(rtn.is_err(), true);
    set.clear();
    set.insert("b".to_string());
    let rtn = meta.verify_state(&set);
    assert_eq!(rtn.is_ok(), true);
}

#[test]
fn simple_mutex() {
    let mut meta = Meta::new("/hello", 1, MetaType::Business).unwrap();
    let _ = match State::string_to_states("a|b") {
        Ok((ss, _)) => meta.set_states(Some(ss)),
        _ => { panic!("should have some") }
    };
    let mut set: TextSet = TextSet::new();
    set.insert("b".to_string());
    let rtn = meta.verify_state(&set);
    assert_eq!(rtn.is_ok(), true);
    set.insert("a".to_string());
    let rtn = meta.verify_state(&set);
    assert_eq!(rtn.err().unwrap().to_string().contains("mutex conflict"), true);
}

#[test]
fn parent_in_mutex() {
    let mut meta = Meta::new("/hello", 1, MetaType::Business).unwrap();
    let _ = match State::string_to_states("a|b[c|d,e]]") {
        Ok((ss, _)) => meta.set_states(Some(ss)),
        _ => { panic!("should have some") }
    };
    let mut set: TextSet = TextSet::new();
    set.insert("a".to_string());
    let rtn = meta.verify_state(&set);
    assert_eq!(rtn.is_ok(), true);

    set.insert("c".to_string());
    let rtn = meta.verify_state(&set);
    assert_eq!(rtn.err().unwrap().to_string().contains("mutex conflict"), true);

    set.clear();
    set.insert("a".to_string());
    set.insert("d".to_string());
    let rtn = meta.verify_state(&set);
    assert_eq!(rtn.err().unwrap().to_string().contains("mutex conflict"), true);

    set.clear();
    set.insert("c".to_string());
    let rtn = meta.verify_state(&set);
    assert_eq!(rtn.is_ok(), true);

    set.insert("d".to_string());
    let rtn = meta.verify_state(&set);
    assert_eq!(rtn.err().unwrap().to_string().contains("mutex conflict"), true);

    set.clear();
    set.insert("c".to_string());
    set.insert("e".to_string());
    let rtn = meta.verify_state(&set);
    assert_eq!(rtn.is_ok(), true);
}

#[test]
fn same_level_exclusion() {
    let meta = state_meta("a|b");
    assert_eq!(meta.verify_state(&names(&["b"])), Ok(()));
    assert_eq!(
        meta.verify_state(&names(&["a", "b"])),
        Err(NatureError::VerifyError("[b] mutex conflict for meta: /B/hello:1".to_string()))
    );
    // the order in which the states are named does not matter
    assert_eq!(meta.verify_state(&names(&["b", "a"])), meta.verify_state(&names(&["a", "b"])));
}

#[test]
fn nested_exclusion() {
    let meta = state_meta("a|b[c|d,e]");
    assert!(meta.verify_state(&names(&["a"])).is_ok());
    assert!(meta.verify_state(&names(&["c"])).is_ok());
    assert!(meta.verify_state(&names(&["a", "d"])).is_err());
    assert!(meta.verify_state(&names(&["c", "e"])).is_ok());
    assert!(meta.verify_state(&names(&["c", "d"])).is_err());
    assert!(meta.verify_state(&names(&["d", "c"])).is_err());
    assert!(meta.verify_state(&names(&["e", "c"])).is_ok());
}

#[test]
fn verifying_twice_gives_the_same() {
    let meta = state_meta("a|b[c|d,e]");
    for set in [names(&["a"]), names(&["a", "d"]), names(&["zz"]), names(&[])] {
        assert_eq!(meta.verify_state(&set), meta.verify_state(&set));
    }
}

#[test]
fn undefined_state_is_named() {
    let meta = state_meta("a|b,p[c]");
    assert_eq!(
        meta.verify_state(&names(&["a", "x"])),
        Err(NatureError::VerifyError("[x] does not defined in meta: /B/hello:1".to_string()))
    );
    // a group is no label
    assert_eq!(
        meta.verify_state(&names(&["p"])),
        Err(NatureError::VerifyError("[p] does not defined in meta: /B/hello:1".to_string()))
    );
    // every state is looked up before any chain is followed
    assert_eq!(
        meta.verify_state(&names(&["x", "b", "a"])),
        Err(NatureError::VerifyError("[x] does not defined in meta: /B/hello:1".to_string()))
    );
    assert_eq!(
        meta.verify_state(&names(&["b", "a", "0"])),
        Err(NatureError::VerifyError("[0] does not defined in meta: /B/hello:1".to_string()))
    );
    // of several states that are not declared, the first in the order of
    // the texts is named
    assert_eq!(
        meta.verify_state(&names(&["z", "a", "y", "b"])),
        Err(NatureError::VerifyError("[y] does not defined in meta: /B/hello:1".to_string()))
    );
    assert!(meta.verify_state(&names(&["a", "c"])).is_ok());
    assert!(meta.verify_state(&names(&[])).is_ok());
}

#[test]
fn undefined_state_comes_before_a_conflict() {
    let mut m = Meta::new("/hello", 1, MetaType::Business).unwrap();
    assert_eq!(m.set_states(Some(State::string_to_states_v2("a|b").unwrap().0)), Ok(()));
    assert_eq!(
        m.verify_state(&names(&["a", "b", "z"])),
        Err(NatureError::VerifyError("[z] does not defined in meta: /B/hello:1".to_string()))
    );
    assert_eq!(
        m.verify_state(&names(&["a", "b"])),
        Err(NatureError::VerifyError("[b] mutex conflict for meta: /B/hello:1".to_string()))
    );
}

#[test]
fn repeated_name_is_refused_at_any_depth() {
    let mut meta = Meta::new("/hello", 1, MetaType::Business).unwrap();
    for text in ["a,a", "a,p[a]", "x|p[q[a]],y[z|a]", "p[a|a]"] {
        let ss = State::string_to_states(text).unwrap().0;
        assert_eq!(
            Meta::avoid_same_name(&ss, "/B/hello:1"),
            Err(NatureError::VerifyError(
                "repeated state name: \"a\", for `Meta`: \"/B/hello:1\"".to_string()
            ))
        );
        assert_eq!(
            meta.set_states(Some(ss)),
            Err(NatureError::VerifyError(
                "repeated state name: \"a\", for `Meta`: \"/B/hello:1\"".to_string()
            ))
        );
        assert_eq!(meta.is_state(), false);
        assert_eq!(meta.get_states(), None);
    }
    // the names of groups may repeat
    let ss = State::string_to_states("p[a],p[b]").unwrap().0;
    assert_eq!(Meta::avoid_same_name(&ss, "m"), Ok(()));
}

#[test]
fn states_are_replaced_together_with_their_index() {
    let mut meta = state_meta("a|b");
    assert!(meta.has_state_name("a"));
    assert!(meta.is_state());
    let ss = State::string_to_states("c,d").unwrap().0;
    meta.set_states(Some(ss)).unwrap();
    assert!(!meta.has_state_name("a"));
    assert!(meta.has_state_name("c"));
    assert_eq!(meta.get_states(), Some(State::string_to_states("c,d").unwrap().0));
    meta.set_states(None).unwrap();
    assert!(!meta.has_state_name("c"));
    assert_eq!(meta.get_states(), None);
    assert!(meta.is_state());
}

#[test]
fn too_many_states_are_refused() {
    let mut many: Vec<State> = Vec::new();
    for i in 0..65536 {
        many.push(State::Normal(format!("s{}", i)));
    }
    let mut meta = Meta::new("/hello", 1, MetaType::Business).unwrap();
    assert_eq!(
        meta.set_states(Some(many)),
        Err(NatureError::VerifyError("too many states, for `Meta`: \"/B/hello:1\"".to_string()))
    );
    let mut fits: Vec<State> = Vec::new();
    for i in 0..65535 {
        fits.push(State::Normal(format!("s{}", i)));
    }
    assert_eq!(meta.set_states(Some(fits)), Ok(()));
    assert!(meta.has_state_name("s65534"));
}

#[test]
fn meta_type_can_be_changed() {
    let mut m = Meta::new("hello", 3, MetaType::Business).unwrap();
    m.set_meta_type(MetaType::System);
    assert_eq!(m.get_meta_type(), MetaType::System);
    assert_eq!(m.get_full_key(), "/S/hello");
    assert_eq!(m.get_key(), "/hello");
    assert_eq!(m.get_string(), "/S/hello:3");
    assert_eq!(m.version, 3);
}

#[test]
fn meta_versions_are_written_in_decimal() {
    assert_eq!(Meta::new("a", -12, MetaType::Business).unwrap().get_string(), "/B/a:-12");
    assert_eq!(Meta::new("a", 0, MetaType::Business).unwrap().get_string(), "/B/a:0");
    assert_eq!(
        Meta::new("a", i32::MIN, MetaType::Business).unwrap().get_string(),
        "/B/a:-2147483648"
    );
    assert_eq!(
        Meta::new("a", i32::MAX, MetaType::Business).unwrap().get_string(),
        "/B/a:2147483647"
    );
}

#[test]
fn version_is_read_by_its_getter() {
    let mut m = Meta::new("a", 7, MetaType::Business).unwrap();
    assert_eq!(m.get_version(), 7);
    m.version = 8;
    assert_eq!(m.get_version(), 8);
    assert_eq!(m.get_string(), "/B/a:8");
    m.set_states(Some(State::string_to_states("x|y[z]").unwrap().0)).unwrap();
    let chains = m.get_check_list();
    assert_eq!(chains.len(), 2);
    assert!(chains.contains_key("x") && chains.contains_key("z") && !chains.contains_key("y"));
    assert_eq!(chains.get("x").unwrap().is_mutex, true);
    assert_eq!(chains.get("z").unwrap().desc_seq.len(), 3);
}

#[test]
fn default_meta_is_business_without_key() {
    let m = Meta::default();
    assert_eq!(m.get_key(), "");
    assert_eq!(m.get_full_key(), "/B");
    assert_eq!(m.version, 1);
    assert_eq!(m.get_meta_type(), MetaType::Business);
    assert_eq!(m.get_setting(), None);
}

#[test]
fn from_string_wants_one_colon_and_a_number() {
    for text in ["/B/a", "/B/a:1:2", "/B/a:x", "/B/a:", "/B/a:99999999999"] {
        assert_eq!(
            Meta::from_string(text),
            Err(NatureError::VerifyError(format!("illegal format for meta string : {}", text)))
        );
    }
    assert_eq!(Meta::from_string("/B/a:-7").unwrap().version, -7);
    assert_eq!(Meta::from_string("/B/a:+7").unwrap().version, 7);
    assert_eq!(Meta::from_string("/B/a:2147483647").unwrap().version, i32::MAX);
    assert_eq!(Meta::from_string("/B/a:-2147483648").unwrap().version, i32::MIN);
    assert_eq!(
        Meta::from_string("/B/a:2147483648"),
        Err(NatureError::VerifyError("illegal format for meta string : /B/a:2147483648".to_string()))
    );
    assert_eq!(
        Meta::from_full_key("/B/", 1),
        Err(NatureError::VerifyError("key length can't be zero".to_string()))
    );
    assert_eq!(
        Meta::from_full_key("xB/a", 1),
        Err(NatureError::VerifyError("unknow prefix : [xB]".to_string()))
    );
    assert_eq!(Meta::from_full_key("/M/a", 2).unwrap().get_meta_type(), MetaType::Multi);
}

#[test]
fn settings_can_make_a_state_meta() {
    let mut meta = Meta::new("/hello", 1, MetaType::Business).unwrap();
    let mut setting = MetaSetting::default();
    setting.master = Some("/B/from:1".to_string());
    meta.set_setting(Some(setting.clone()));
    assert_eq!(meta.is_state(), false);
    assert_eq!(meta.get_setting(), Some(setting.clone()));
    setting.is_state = true;
    meta.set_setting(Some(setting));
    assert_eq!(meta.is_state(), true);
    meta.set_setting(None);
    assert_eq!(meta.get_setting(), None);
    assert_eq!(meta.is_state(), true);
}

#[test]
fn meta_get_hands_on_what_the_cache_says() {
    let got: Result<i32, NatureError> = Meta::get(
        "/B/a:1",
        |m: &str, g: fn(&str) -> Result<i32, NatureError>| g(m),
        (|m: &str| Ok(m.len() as i32)) as fn(&str) -> Result<i32, NatureError>,
    );
    assert_eq!(got, Ok(6));
}

#[test]
fn meta_strings_are_made_without_a_meta() {
    assert_eq!(MetaString::null(), "/N");
    assert_eq!(MetaString::new("hello/"), Ok("/B/hello:1".to_string()));
    assert_eq!(MetaString::with_type("hello", MetaType::System), Ok("/S/hello:1".to_string()));
    assert_eq!(
        MetaString::with_version_and_type("/hello", 5, MetaType::Dynamic),
        Ok("/D/hello:5".to_string())
    );
    assert_eq!(
        MetaString::with_version_and_type("hello", 5, MetaType::Null),
        Ok("/N".to_string())
    );
    assert_eq!(
        MetaString::new("/"),
        Err(NatureError::VerifyError("key length can't be zero".to_string()))
    );
    assert_eq!(MetaString::make_meta_string("/B/x", 7), "/B/x:7");
    assert_eq!(MetaString::full_key("x/y/"), Ok("/B/x/y".to_string()));
    assert_eq!(MetaString::make_tuple_from_str("/B/x:7"), Ok(("/B/x".to_string(), 7)));
    assert_eq!(MetaString::make_tuple_from_str(":1"), Ok(("".to_string(), 1)));
}

#[test]
fn key_standardize_examples() {
    assert_eq!(Meta::key_standardize("a"), Ok("/a".to_string()));
    assert_eq!(Meta::key_standardize("/a"), Ok("/a".to_string()));
    assert_eq!(Meta::key_standardize("a/"), Ok("/a".to_string()));
    assert_eq!(Meta::key_standardize("a//"), Ok("/a/".to_string()));
    assert_eq!(Meta::key_standardize("//"), Ok("/".to_string()));
}

#[test]
fn numbers_are_counted_per_level() {
    // the two `Mutex` of this declaration get the same number, and so do
    // `a` and `c`, and `b` and `d`
    let meta = state_meta("p[q[a|b]],r[c|d]");
    assert!(meta.verify_state(&names(&["a", "c"])).is_ok());
    assert!(meta.verify_state(&names(&["b", "d"])).is_ok());
    assert_eq!(
        meta.verify_state(&names(&["a", "d"])),
        Err(NatureError::VerifyError("[d] mutex conflict for meta: /B/hello:1".to_string()))
    );
    assert!(meta.verify_state(&names(&["a", "b"])).is_err());
    assert!(meta.verify_state(&names(&["c", "d"])).is_err());
}
