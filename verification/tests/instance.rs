use nature_common::converter::DynamicConverter;
use nature_common::error::NatureError;
use nature_common::from_instance::FromInstance;
use nature_common::instance::{Context, Instance, SelfRouteInstance, CONTEXT_TARGET_INSTANCE_ID};
use nature_common::text_map::TextSet;
use nature_common::meta::Meta;
use nature_common::meta_setting::MetaSetting;
use nature_common::meta_state::State;
use nature_common::meta_type::MetaType;
use nature_common::query::KeyCondition;
use nature_common::target_state::TargetState;

fn names(list: &[&str]) -> TextSet {
    let mut set = TextSet::new();
    for x in list {
        set.insert(x.to_string());
    }
    set
}

fn list(names: &[&str]) -> Vec<String> {
    names.iter().map(|x| x.to_string()).collect()
}

fn change(add: Option<&[&str]>, remove: Option<&[&str]>) -> TargetState {
    let mut t = TargetState::default();
    t.add = add.map(list);
    t.remove = remove.map(list);
    t
}

fn state_meta(declaration: &str) -> Meta {
    let mut meta = Meta::new("/hello", 1, MetaType::Business).unwrap();
    meta.set_states(Some(State::string_to_states(declaration).unwrap().0)).unwrap();
    meta
}

// an instance names its metadata by the letter of the type, the key and the
// version, with `:` between them
fn meta_cache<G>(m: &str, _: G) -> Result<Meta, NatureError> {
    let parts: Vec<&str> = m.split(':').collect();
    Meta::new(parts[1], parts[2].parse().unwrap(), MetaType::from_prefix(parts[0])?)
}

fn meta_getter(_: &str) -> Result<String, NatureError> {
    Ok("".to_string())
}

#[test]
fn revise_test() {
    let mut instance = Instance::new("hello").unwrap();
    assert_eq!(instance.id, 0);
    assert_eq!(instance.execute_time, 0);
    assert_eq!(instance.create_time, 0);
    let m_g: fn(&str) -> Result<String, NatureError> = meta_getter;
    let _ = instance.check_and_revise(meta_cache, m_g, &vec![]);
    assert_eq!(instance.execute_time > 0, true);
    assert_eq!(instance.create_time > 0, true);
}

#[test]
fn can_not_get_from_cache() {
    let mut instance = Instance::new("/err").unwrap();
    fn cache<G, W>(_: &str, _: G) -> Result<W, NatureError> {
        Err(NatureError::VerifyError("cache error".to_string()))
    }
    fn getter<T>(_: &str) -> Result<T, NatureError> {
        Err(NatureError::VerifyError("getter error".to_string()))
    }
    let m_g: fn(&str) -> Result<String, NatureError> = getter;
    let result = instance.check_and_revise::<String, String, _, _>(cache, m_g, &vec![]);
    assert!(result.is_err());
}

#[test]
fn can_get_from_cache() {
    let mut instance = Instance::new("/ok").unwrap();
    fn cache<G>(_: &str, _: G) -> Result<String, NatureError> {
        Ok("hello".to_string())
    }
    fn getter<T>(_: &str) -> Result<T, NatureError> {
        Err(NatureError::VerifyError("getter error".to_string()))
    }
    let m_g: fn(&str) -> Result<String, NatureError> = getter;

    let result = instance.check_and_revise::<String, String, _, _>(cache, m_g, &vec![]);
    assert!(result.is_ok());
}

#[test]
fn same_meta_test() {
    let vec1 = vec![Instance::new("hello").unwrap(), Instance::new("world").unwrap()];
    assert_eq!(Instance::meta_must_same(&vec1).is_err(), true);
    let vec1 = vec![Instance::new("hello").unwrap(), Instance::new("hello").unwrap()];
    assert_eq!(Instance::meta_must_same(&vec1).is_err(), false);
}

#[test]
fn instance_new_test() {
    let ins = Instance::new("hello").unwrap();
    assert_eq!(ins.meta, "B:hello:1");
    let ins = Instance::new("/hello").unwrap();
    assert_eq!(ins.meta, "B:hello:1");
}

#[test]
fn unique_id_test() {
    let ins = Instance::new("hello").unwrap();
    assert_eq!(ins.get_unique(), "B:hello:10");
}

#[test]
fn check_multi_meta() {
    let mut set: TextSet = TextSet::new();
    set.insert("B:a:1".to_string());
    set.insert("B:b:1".to_string());

    let ms = MetaSetting {
        is_state: false,
        master: None,
        multi_meta: set,
        cache_saved: false,
    };
    let a = Instance::new("a").unwrap();
    let b = Instance::new("b").unwrap();
    let c = Instance::new("d").unwrap();
    assert_eq!(ms.check_multi_meta(&mut vec![a.clone()]).is_ok(), true);
    assert_eq!(ms.check_multi_meta(&mut vec![b.clone()]).is_ok(), true);
    assert_eq!(ms.check_multi_meta(&mut vec![a.clone(), b.clone()]).is_ok(), true);
    assert_eq!(ms.check_multi_meta(&mut vec![c.clone()]).is_err(), true);
    assert_eq!(ms.check_multi_meta(&mut vec![c.clone(), a.clone()]).is_err(), true);
    assert_eq!(ms.check_multi_meta(&mut vec![a.clone(), c.clone()]).is_err(), true);
    assert_eq!(ms.check_multi_meta(&mut vec![b.clone(), c.clone()]).is_err(), true);
    assert_eq!(ms.check_multi_meta(&mut vec![c.clone(), b.clone()]).is_err(), true);
    assert_eq!(ms.check_multi_meta(&mut vec![a, b, c]).is_err(), true);
}

#[test]
fn unlisted_meta_is_named() {
    let ms = MetaSetting { is_state: false, master: None, multi_meta: names(&["B:a:1"]), cache_saved: false };
    let a = Instance::new("a").unwrap();
    let c = Instance::new("c").unwrap();
    let d = Instance::new("d").unwrap();
    assert_eq!(
        ms.check_multi_meta(&mut vec![a, c, d]),
        Err(NatureError::VerifyError("undefined meta:B:c:1 ".to_string()))
    );
}

#[test]
fn instance_without_key_is_refused() {
    assert_eq!(
        Instance::new(""),
        Err(NatureError::VerifyError("key can not be empty".to_string()))
    );
    assert_eq!(
        Instance::new("/"),
        Err(NatureError::VerifyError("key length can't be zero".to_string()))
    );
    assert_eq!(Instance::new("a/b/").unwrap().meta, "B:a/b:1");
}

#[test]
fn revise_fills_what_is_not_set() {
    let mut instance = Instance::new("hello").unwrap();
    instance.revise_at(77, &b"some bytes".to_vec());
    assert_eq!(instance.create_time, 77);
    assert_eq!(instance.execute_time, 77);
    let id = instance.id;
    assert_ne!(id, 0);
    instance.revise_at(99, &b"other bytes".to_vec());
    assert_eq!(instance.create_time, 77);
    assert_eq!(instance.execute_time, 77);
    assert_eq!(instance.id, id);

    let mut with_para = Instance::new("hello").unwrap();
    with_para.data.para = "p".to_string();
    with_para.execute_time = 5;
    with_para.revise_at(77, &b"some bytes".to_vec());
    assert_eq!(with_para.id, 0);
    assert_eq!(with_para.create_time, 77);
    assert_eq!(with_para.execute_time, 5);
}

#[test]
fn revise_takes_the_present_time() {
    let mut instance = Instance::new("hello").unwrap();
    instance.revise(&b"x".to_vec());
    // later than the year 2020
    assert!(instance.create_time > 1_577_836_800_000);
    assert_eq!(instance.create_time, instance.execute_time);
}

#[test]
fn instance_key_has_four_parts() {
    let mut ins = Instance::new("hello").unwrap();
    ins.id = 255;
    ins.data.para = "x/y".to_string();
    ins.data.state_version = -3;
    assert_eq!(ins.get_key(), "B:hello:1|255|x/y|-3");
    assert_eq!(ins.get_unique(), "B:hello:1255x/y");
    let carried = SelfRouteInstance { instance: ins.clone(), converter: vec![] };
    assert_eq!(carried.get_key(), "B:hello:1|255|x/y|-3");
    assert_eq!(
        carried.verify(),
        Err(NatureError::VerifyError("executor must not empty for dynamic convert!".to_string()))
    );
    let mut plain = carried.to_instance();
    assert_eq!(plain.id, 0);
    assert_eq!(plain.data, ins.data);
    plain.id = 255;
    assert_eq!(plain, ins);
    assert_eq!(ins.copy(), ins);
    let routed = SelfRouteInstance { instance: ins, converter: vec![DynamicConverter::default()] };
    assert_eq!(routed.verify(), Ok(()));
}

#[test]
fn states_are_removed_before_they_are_added() {
    let meta = state_meta("a|b,c,p[d|e]");
    let mut ins = Instance::new("hello").unwrap();
    assert_eq!(ins.data.modify_state(&change(Some(&["c", "a"]), None), &meta), Ok(()));
    assert_eq!(ins.states, names(&["a", "c"]));
    // `a` leaves before `b` comes
    assert_eq!(ins.data.modify_state(&change(Some(&["b", "c", "b"]), Some(&["a"])), &meta), Ok(()));
    assert_eq!(ins.states, names(&["b", "c"]));
    // a refused change leaves the states as they are
    assert_eq!(
        ins.data.modify_state(&change(Some(&["a"]), None), &meta),
        Err(NatureError::VerifyError("[b] mutex conflict for meta: /B/hello:1".to_string()))
    );
    assert_eq!(ins.states, names(&["b", "c"]));
    assert_eq!(
        ins.data.modify_state(&change(Some(&["x"]), Some(&["b", "c"])), &meta),
        Err(NatureError::VerifyError("[x] does not defined in meta: /B/hello:1".to_string()))
    );
    assert_eq!(ins.states, names(&["b", "c"]));
    // what is both removed and added stays
    assert_eq!(ins.data.modify_state(&change(Some(&["b"]), Some(&["b"])), &meta), Ok(()));
    assert_eq!(ins.states, names(&["b", "c"]));
    assert_eq!(ins.data.modify_state(&change(None, Some(&["c", "zz"])), &meta), Ok(()));
    assert_eq!(ins.states, names(&["b"]));
    assert_eq!(ins.data.modify_state(&change(None, None), &meta), Ok(()));
    assert_eq!(ins.states, names(&["b"]));
    assert_eq!(ins.data.modify_state(&change(Some(&["d"]), None), &meta), Ok(()));
    assert_eq!(ins.states, names(&["b", "d"]));
    assert_eq!(
        ins.data.modify_state(&change(Some(&["e"]), None), &meta),
        Err(NatureError::VerifyError("[e] mutex conflict for meta: /B/hello:1".to_string()))
    );
}

#[test]
fn states_of_a_meta_without_states_are_not_checked() {
    let meta = Meta::new("/hello", 1, MetaType::Business).unwrap();
    let mut ins = Instance::new("hello").unwrap();
    assert_eq!(ins.data.modify_state(&change(Some(&["anything"]), None), &meta), Ok(()));
    assert_eq!(ins.states, names(&["anything"]));
}

#[test]
fn last_target_is_looked_up_by_the_id_in_the_context() {
    let found = Instance::new("found").unwrap();
    let answer = found.clone();
    let dao = move |q: &KeyCondition| -> Result<Option<Instance>, NatureError> {
        assert_eq!(*q, KeyCondition::new(255, "B:t:1", "", 0));
        Ok(Some(answer.clone()))
    };
    let mut ins = Instance::new("hello").unwrap();
    assert_eq!(ins.get_last_taget("B:t:1", &dao), Ok(None));
    ins.data.sys_context.insert(CONTEXT_TARGET_INSTANCE_ID.to_string(), "255".to_string());
    assert_eq!(ins.get_last_taget("B:t:1", &dao), Ok(Some(found)));
    ins.data.sys_context.insert(CONTEXT_TARGET_INSTANCE_ID.to_string(), "25x".to_string());
    assert_eq!(
        ins.get_last_taget("B:t:1", &dao),
        Err(NatureError::VerifyError("invalid digit found in string".to_string()))
    );
    assert_eq!(
        Instance::last_target_query(Some(&"12".to_string()), "m"),
        Ok(Some(KeyCondition::new(12, "m", "", 0)))
    );
    assert_eq!(Instance::last_target_query(None, "m"), Ok(None));
}

#[test]
fn master_is_looked_up_where_the_settings_name_one() {
    let found = Instance::new("found").unwrap();
    let answer = found.clone();
    let dao = move |q: &KeyCondition| -> Result<Option<Instance>, NatureError> {
        assert_eq!(*q, KeyCondition::new(16, "/B/master:1", "p", 0));
        Ok(Some(answer.clone()))
    };
    let mut ins = Instance::new("hello").unwrap();
    ins.id = 16;
    ins.data.para = "p".to_string();
    let mut meta = Meta::new("/hello", 1, MetaType::Business).unwrap();
    assert_eq!(ins.get_master(&meta, &dao), Ok(None));
    meta.set_setting(Some(MetaSetting::default()));
    assert_eq!(ins.get_master(&meta, &dao), Ok(None));
    let mut setting = MetaSetting::default();
    setting.master = Some("/B/master:1".to_string());
    meta.set_setting(Some(setting));
    assert_eq!(ins.get_master(&meta, &dao), Ok(Some(found)));
}

#[test]
fn context_keeps_the_last_value_of_a_name() {
    let mut c = Context::new();
    assert!(c.is_empty());
    assert_eq!(c.get("a"), None);
    c.insert("b".to_string(), "2".to_string());
    c.insert("a".to_string(), "1".to_string());
    c.insert("a".to_string(), "3".to_string());
    assert_eq!(c.get("a"), Some(&"3".to_string()));
    assert_eq!(c.get("b"), Some(&"2".to_string()));
    assert_eq!(c.get("c"), None);
    assert!(c.contains_key("a") && !c.contains_key("c"));
    assert!(!c.is_empty());
    assert_eq!(c.len(), 2);
    assert_eq!(c.copy(), c);
    assert_eq!(c.clone(), c);
    assert_eq!(Context::default(), Context::new());
    // the order in which the values came does not show
    let mut d = Context::new();
    d.insert("a".to_string(), "3".to_string());
    d.insert("b".to_string(), "2".to_string());
    assert_eq!(c, d);
    let listed: Vec<(&str, &str)> =
        c.entries().iter().map(|e| (e.name.as_str(), e.value.as_str())).collect();
    assert_eq!(listed, vec![("a", "3"), ("b", "2")]);
}

#[test]
fn text_sets_hold_each_text_once_and_in_order() {
    let mut s = TextSet::new();
    assert!(s.is_empty());
    assert!(s.insert("m".to_string()));
    assert!(s.insert("é".to_string()));
    assert!(s.insert("a".to_string()));
    assert!(s.insert("ab".to_string()));
    assert!(s.insert("".to_string()));
    assert!(!s.insert("m".to_string()));
    assert_eq!(s.len(), 5);
    assert_eq!(s.as_vec(), &vec!["", "a", "ab", "m", "é"]);
    assert!(s.contains("ab") && s.contains("") && !s.contains("b"));
    assert!(s.remove("a"));
    assert!(!s.remove("a"));
    assert_eq!(s.as_vec(), &vec!["", "ab", "m", "é"]);
    assert_eq!(s.copy(), s);
    assert_eq!(s.clone(), s);
    let mut other = TextSet::new();
    for x in ["é", "m", "ab", ""] {
        other.insert(x.to_string());
    }
    assert_eq!(other, s);
    s.clear();
    assert!(s.is_empty());
    assert_eq!(s, TextSet::default());
}

#[test]
fn upstream_is_named_by_meta_id_and_version() {
    let from = FromInstance { id: 1234567890123456789012345678901234567, meta: "B:a:1".to_string(), para: "p".to_string(), state_version: 2 };
    assert_eq!(from.get_upstream(), "B:a:1:1234567890123456789012345678901234567:2");
    assert_eq!(FromInstance::default().get_upstream(), ":0:0");
    assert_eq!(from.copy(), from);
    assert_eq!(KeyCondition::from(&from), KeyCondition::new(from.id, "B:a:1", "p", 2));
}
