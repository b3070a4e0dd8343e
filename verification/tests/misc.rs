use nature_common::converter::{
    ConverterReturned, Executor, ExecutorWithOptionWeight, Protocol, WeightWithOptionGroup,
};
use nature_common::callback::DelayedInstances;
use nature_common::error::NatureError;
use nature_common::id_tool::{
    generate_id, id_from_hex_str, u128_to_vec_u8, vec_to_hex_string, vec_to_u128,
};
use nature_common::meta_type::MetaType;
use nature_common::query::{IDAndFrom, KeyCondition};
use nature_common::serde_tool::{
    is_default_meta, is_false, is_one, is_one_u32, is_zero, one, one_u32,
};
use nature_common::settings::{default_para_separator, is_default_para_separator};
use nature_common::text::{join, read_i32, same_text, split};

#[test]
fn vec_to_hex_string_test() {
    let string = vec_to_hex_string(&vec!(1, 2, 3, 16));
    assert_eq!(string, "01020310");
    let string = vec_to_hex_string(&vec!(1, 2, 3, 15));
    assert_eq!(string, "0102030f");
}

#[test]
fn hex_string_of_nothing_and_of_the_largest_byte() {
    assert_eq!(vec_to_hex_string(&[]), "");
    assert_eq!(vec_to_hex_string(&[255, 0, 171]), "ff00ab");
}

#[test]
fn id_is_read_from_hexadecimal() {
    assert_eq!(id_from_hex_str("ff"), Ok(255));
    assert_eq!(id_from_hex_str("0"), Ok(0));
    assert_eq!(id_from_hex_str("FFFFFFFFFFFFFFFF"), Ok(u64::MAX));
    assert_eq!(
        id_from_hex_str("xy"),
        Err(NatureError::VerifyError(
            "can't convert to id from xy, err: invalid digit found in string".to_string()
        ))
    );
    assert_eq!(
        id_from_hex_str(""),
        Err(NatureError::VerifyError(
            "can't convert to id from , err: cannot parse integer from empty string".to_string()
        ))
    );
}

#[test]
fn id_is_the_uuid_of_the_bytes() {
    // the version 3 UUID of "www.example.com" in the DNS namespace is
    // 5df41881-3aed-3515-88a7-2f4a814cf09e
    let bytes: [u8; 16] = [
        0x5d, 0xf4, 0x18, 0x81, 0x3a, 0xed, 0x35, 0x15, 0x88, 0xa7, 0x2f, 0x4a, 0x81, 0x4c, 0xf0,
        0x9e,
    ];
    let id = generate_id(&b"www.example.com".to_vec());
    assert_eq!(id, u128::from_ne_bytes(bytes));
    assert_eq!(id, generate_id(&b"www.example.com".to_vec()));
    assert_ne!(id, generate_id(&b"www.example.org".to_vec()));
}

#[test]
fn id_bytes_are_read_back() {
    for id in [0u128, 1, 255, 256, u128::MAX, 0x0102030405060708090a0b0c0d0e0f10] {
        let bytes = u128_to_vec_u8(id);
        assert_eq!(bytes.len(), 16);
        assert_eq!(vec_to_u128(&bytes), id);
    }
    let mut long = u128_to_vec_u8(7);
    long.push(9);
    assert_eq!(vec_to_u128(&long), 7);
    let one = u128_to_vec_u8(1);
    assert!(one[0] == 1 || one[15] == 1);
}

#[test]
fn error_text_names_the_kind_and_quotes_the_message() {
    assert_eq!(
        NatureError::VerifyError("a \"b\"".to_string()).to_string(),
        "VerifyError(\"a \\\"b\\\"\")"
    );
    assert_eq!(NatureError::LogicalError("x".to_string()).to_string(), "LogicalError(\"x\")");
    assert_eq!(NatureError::DaoDuplicated("x".to_string()).to_string(), "DaoDuplicated(\"x\")");
    assert_eq!(NatureError::SystemError("x".to_string()).to_string(), "SystemError(\"x\")");
    assert_eq!(
        NatureError::EnvironmentError("".to_string()).to_string(),
        "EnvironmentError(\"\")"
    );
}

#[test]
fn protocol_is_read_in_any_case() {
    assert_eq!("localRust".parse::<Protocol>(), Ok(Protocol::LocalRust));
    assert_eq!("http".parse::<Protocol>(), Ok(Protocol::Http));
    assert_eq!("Https".parse::<Protocol>(), Ok(Protocol::Https));
    assert_eq!("builtin".parse::<Protocol>(), Ok(Protocol::BuiltIn));
    assert_eq!(
        "auto".parse::<Protocol>(),
        Err(NatureError::VerifyError("unknown protocol : auto".to_string()))
    );
    assert_eq!(Protocol::from_upper("HTTP", "x"), Ok(Protocol::Http));
    assert_eq!(
        Protocol::from_upper("http", "x"),
        Err(NatureError::VerifyError("unknown protocol : x".to_string()))
    );
    assert_eq!(Protocol::default(), Protocol::LocalRust);
}

#[test]
fn executors_are_made_with_weight_one() {
    let local = Executor::for_local("some/path");
    assert_eq!(local.protocol, Protocol::LocalRust);
    assert_eq!(local.url, "some/path");
    assert_eq!(local.group, "");
    assert_eq!(local.weight, 1);
    let auto = Executor::new_auto();
    assert_eq!(auto.protocol, Protocol::Auto);
    assert_eq!(auto.url, "");
    assert_eq!(auto.group, "");
    assert_eq!(auto.weight, 1);
    assert_eq!(Executor::default().weight, 0);
}

#[test]
fn executor_takes_the_group_given_beside_it_where_it_names_none() {
    let written = |weight: Option<WeightWithOptionGroup>| ExecutorWithOptionWeight {
        protocol: Protocol::Http,
        url: "u".to_string(),
        weight,
    };
    let e = Executor::from((written(None), "g".to_string()));
    assert_eq!((e.group.as_str(), e.weight, e.protocol), ("g", 1, Protocol::Http));
    let e = Executor::from((
        written(Some(WeightWithOptionGroup { group: None, proportion: 5 })),
        "g".to_string(),
    ));
    assert_eq!((e.group.as_str(), e.weight), ("g", 5));
    let e = Executor::from((
        written(Some(WeightWithOptionGroup { group: Some("own".to_string()), proportion: 0 })),
        "g".to_string(),
    ));
    assert_eq!((e.group.as_str(), e.weight, e.url.as_str()), ("own", 0, "u"));
}

#[test]
fn converter_returns_nothing_by_default() {
    assert_eq!(ConverterReturned::default(), ConverterReturned::Nothing);
    let d = DelayedInstances::default();
    assert_eq!(d.task_id.len(), 0);
    assert_eq!(d.result, ConverterReturned::Nothing);
}

#[test]
fn key_conditions_write_the_id_in_hexadecimal() {
    let k = KeyCondition::new(255, "B:a:1", "p", 3);
    assert_eq!(k.id, "ff");
    assert_eq!(k.meta, "B:a:1");
    assert_eq!(k.gt_key, "");
    assert_eq!(k.para, "p");
    assert_eq!(k.state_version, 3);
    assert_eq!(k.limit, 1);
    assert_eq!(k.id_like(), "B:a:1|%");
    assert_eq!(k.para_like(), "B:a:1|ff|%");
    assert_eq!(k.get_key(), "B:a:1|ff|p");
    assert_eq!(KeyCondition::new(0, "", "", 0).id, "0");
    assert_eq!(KeyCondition::new(u128::MAX, "", "", 0).id, "ffffffffffffffffffffffffffffffff");
    let i = IDAndFrom { id: 4096, meta: "B:a:1".to_string(), from_key: "".to_string() };
    assert_eq!(i.para_like(), "B:a:1|1000|%");
}

#[test]
fn small_predicates() {
    assert!(is_one(&1) && !is_one(&0));
    assert_eq!(one(), 1);
    assert!(is_one_u32(&1) && !is_one_u32(&2));
    assert_eq!(one_u32(), 1);
    assert!(is_zero(&0) && !is_zero(&1));
    assert!(is_false(&false) && !is_false(&true));
    assert!(is_default_meta(&MetaType::Business) && !is_default_meta(&MetaType::System));
}

#[test]
fn para_separator_is_a_slash_unless_configured() {
    assert_eq!(default_para_separator(None), "/");
    assert_eq!(default_para_separator(Some("-")), "-");
    assert!(is_default_para_separator("/", None));
    assert!(!is_default_para_separator("-", None));
    assert!(is_default_para_separator("-", Some("-")));
    assert!(!is_default_para_separator("/", Some("-")));
}

#[test]
fn texts_are_split_and_joined() {
    assert_eq!(split("a,b,,c", ','), vec!["a", "b", "", "c"]);
    assert_eq!(split("", ','), vec![""]);
    assert_eq!(split(",", ','), vec!["", ""]);
    assert_eq!(join(&vec!["a".to_string(), "".to_string(), "c".to_string()], "--"), "a----c");
    assert_eq!(join(&vec![], "-"), "");
    assert!(same_text("", "") && same_text("aé", "aé"));
    assert!(!same_text("a", "ab") && !same_text("ab", "a") && !same_text("a", "b"));
    assert_eq!(read_i32("12"), Some(12));
    assert_eq!(read_i32("-0"), Some(0));
    assert_eq!(read_i32("007"), Some(7));
    assert_eq!(read_i32("-"), None);
    assert_eq!(read_i32(""), None);
    assert_eq!(read_i32("1a"), None);
    assert_eq!(read_i32("-2147483649"), None);
}
