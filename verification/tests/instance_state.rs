use nature_common::error::NatureError;
use nature_common::instance_state::InstanceState;

#[test]
fn instance_state_to_string() {
    let string = InstanceState {
        name: "aaa".to_string(),
        sub_state: vec![],
    }.to_string();
    assert_eq!(string, "aaa");
    let string = InstanceState {
        name: "aaa".to_string(),
        sub_state: vec![
            InstanceState {
                name: "a".to_string(),
                sub_state: vec![],
            },
            InstanceState {
                name: "b".to_string(),
                sub_state: vec![
                    InstanceState {
                        name: "b-1".to_string(),
                        sub_state: vec![],
                    },
                    InstanceState {
                        name: "b-2".to_string(),
                        sub_state: vec![],
                    },
                    InstanceState {
                        name: "b-3".to_string(),
                        sub_state: vec![],
                    }
                ],
            },
            InstanceState {
                name: "c".to_string(),
                sub_state: vec![],
            }
        ],
    }.to_string();
    assert_eq!(string, "aaa[a,b[b-1,b-2,b-3],c]");
}

#[test]
fn simple_str() {
    let result = "aaa".parse::<InstanceState>().unwrap();
    assert_eq!(result.name, "aaa");
    assert_eq!(result.sub_state.len(), 0);
}

#[test]
fn has_sub() {
    let result = "aaa[a,b,c]".parse::<InstanceState>().unwrap();
    assert_eq!(result.name, "aaa");
    let subs = result.sub_state;
    assert_eq!(subs.len(), 3);
    assert_eq!(subs[0], "a".parse::<InstanceState>().unwrap());
    assert_eq!(subs[1], "b".parse::<InstanceState>().unwrap());
    assert_eq!(subs[2], "c".parse::<InstanceState>().unwrap());
}

#[test]
fn instance_state_without_text_is_refused() {
    let empty = Err(NatureError::VerifyError("state string can't be empty".to_string()));
    assert_eq!(InstanceState::parse(""), empty);
    assert_eq!(InstanceState::parse("a[]"), empty);
    assert_eq!(InstanceState::parse("a["), empty);
    assert_eq!(InstanceState::parse("a[b,]"), empty);
    // the last character is dropped, whatever it is
    assert_eq!(InstanceState::parse("a[b,c"), InstanceState::parse("a[b,]"));
    assert_eq!(InstanceState::parse("a[bx").unwrap().sub_state[0].name, "b");
    // only the first of a list is written by its name alone
    let first = InstanceState {
        name: "x".to_string(),
        sub_state: vec![InstanceState { name: "y".to_string(), sub_state: vec![] }],
    };
    let second = InstanceState {
        name: "x".to_string(),
        sub_state: vec![InstanceState { name: "y".to_string(), sub_state: vec![] }],
    };
    assert_eq!(InstanceState::states_to_string(&vec![first, second]), "x,x[y]");
    assert_eq!(InstanceState::states_to_string(&vec![]), "");
}
