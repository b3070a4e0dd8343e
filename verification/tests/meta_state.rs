use nature_common::meta_state::State;

fn normal(name: &str) -> State {
    State::Normal(name.to_string())
}

fn parent(name: &str, children: Vec<State>) -> State {
    State::Parent(name.to_string(), children)
}

// no normal, parent, not mutex; no normal, parent, mutex
#[test]
fn meta_state_for_parent_and_no_mutex() {
    let rtn = State::string_to_states_v2("p[b]|a").unwrap();
    assert_eq!(rtn.0.len(), 1);
    assert_eq!(rtn.0[0], State::Mutex(vec![
        State::Parent("p".to_string(), vec![State::Normal("b".to_string())]),
        State::Normal("a".to_string()),
    ]));

    let rtn = State::string_to_states_v2("p[p[b]]").unwrap();
    assert_eq!(rtn.0.len(), 1);
    assert_eq!(rtn.0[0], State::Parent("p".to_string(), vec![
        State::Parent("p".to_string(), vec![State::Normal("b".to_string())]),
    ]));
}

#[test]
fn meta_state_for_parent_and_mutex() {
    let rtn = State::string_to_states_v2("a|p[b]|a").unwrap();
    assert_eq!(rtn.0.len(), 1);
    assert_eq!(rtn.0[0], State::Mutex(vec![
        State::Normal("a".to_string()),
        State::Parent("p".to_string(), vec![State::Normal("b".to_string())]),
        State::Normal("a".to_string()),
    ]));

    let rtn = State::string_to_states_v2("p[a|p[b]]").unwrap();
    assert_eq!(rtn.0.len(), 1);
    assert_eq!(rtn.0[0], State::Parent("p".to_string(), vec![
        State::Mutex(vec![
            State::Normal("a".to_string()),
            State::Parent("p".to_string(), vec![State::Normal("b".to_string())]),
        ]),
    ]));

    let rtn = State::string_to_states_v2("a|p[b],a").unwrap();
    assert_eq!(rtn.0.len(), 2);
    assert_eq!(rtn.0[0], State::Mutex(vec![
        State::Normal("a".to_string()),
        State::Parent("p".to_string(), vec![State::Normal("b".to_string())]),
    ]));
    assert_eq!(rtn.0[1], State::Normal("a".to_string()));
}

#[test]
fn for_normal_and_mutex() {
    let rtn = State::string_to_states_v2("p[b|a]").unwrap();
    assert_eq!(rtn.0.len(), 1);
    assert_eq!(rtn.0[0], State::Parent("p".to_string(), vec![
        State::Mutex(vec![
            State::Normal("b".to_string()),
            State::Normal("a".to_string()),
        ]),
    ]));
}

#[test]
fn normal_parent() {
    let rtn = State::string_to_states_v2("a,p[c]").unwrap();
    assert_eq!(rtn.0.len(), 2);
    assert_eq!(rtn.0[0], State::Normal("a".to_string()));
    assert_eq!(rtn.0[1], State::Parent("p".to_string(), vec![State::Normal("c".to_string())]));
}

#[test]
fn normal_mutex() {
    let rtn = State::string_to_states_v2("a,c|d").unwrap();
    assert_eq!(rtn.0.len(), 2);
    assert_eq!(rtn.0[0], State::Normal("a".to_string()));
    assert_eq!(rtn.0[1], State::Mutex(vec![
        State::Normal("c".to_string()),
        State::Normal("d".to_string()),
    ]));
}

#[test]
fn parent_mutex() {
    let rtn = State::string_to_states_v2("p[a],c|d").unwrap();
    assert_eq!(rtn.0.len(), 2);
    assert_eq!(rtn.0[0], State::Parent("p".to_string(), vec![State::Normal("a".to_string())]));
    assert_eq!(rtn.0[1], State::Mutex(vec![
        State::Normal("c".to_string()),
        State::Normal("d".to_string()),
    ]));
}

#[test]
fn complex() {
    let rtn = State::string_to_states_v2("a,p[a],m|n,p[m|m,p[a,b]|p[c,c]]").unwrap();
    assert_eq!(rtn.0.len(), 4);
    assert_eq!(rtn.0[0], State::Normal("a".to_string()));
    assert_eq!(rtn.0[1], State::Parent("p".to_string(), vec![State::Normal("a".to_string())]));
    assert_eq!(rtn.0[2], State::Mutex(vec![
        State::Normal("m".to_string()),
        State::Normal("n".to_string()),
    ]));
    assert_eq!(rtn.0[3], State::Parent("p".to_string(), vec![
        State::Mutex(vec![
            State::Normal("m".to_string()),
            State::Normal("m".to_string()),
        ]),
        State::Mutex(vec![
            State::Parent("p".to_string(), vec![
                State::Normal("a".to_string()),
                State::Normal("b".to_string()),
            ]),
            State::Parent("p".to_string(), vec![
                State::Normal("c".to_string()),
                State::Normal("c".to_string()),
            ]),
        ])]));
}

#[test]
fn single() {
    let rtn = State::string_to_states_v2("a|b").unwrap();
    assert_eq!(rtn.0.len(), 1);
    assert_eq!(rtn.0[0], State::Mutex(vec![
        State::Normal("a".to_string()),
        State::Normal("b".to_string()),
    ]));

    let rtn = State::string_to_states_v2("a|b|c").unwrap();
    assert_eq!(rtn.0.len(), 1);
    assert_eq!(rtn.0[0], State::Mutex(vec![
        State::Normal("a".to_string()),
        State::Normal("b".to_string()),
        State::Normal("c".to_string()),
    ]));
}

#[test]
fn multi() {
    let rtn = State::string_to_states_v2("a|b,c|d").unwrap();
    assert_eq!(rtn.0.len(), 2);
    assert_eq!(rtn.0[0], State::Mutex(vec![
        State::Normal("a".to_string()),
        State::Normal("b".to_string()),
    ]));
    assert_eq!(rtn.0[1], State::Mutex(vec![
        State::Normal("c".to_string()),
        State::Normal("d".to_string()),
    ]));
}

#[test]
fn one_child() {
    let rtn = State::string_to_states_v2("p[a]").unwrap();
    assert_eq!(rtn.0.len(), 1);
    assert_eq!(rtn.0[0], State::Parent("p".to_string(), vec![State::Normal("a".to_string())]));
}

#[test]
fn three_children() {
    let rtn = State::string_to_states_v2("p[a,b,c]").unwrap();
    assert_eq!(rtn.0.len(), 1);
    assert_eq!(rtn.0[0], State::Parent("p".to_string(), vec![
        State::Normal("a".to_string()),
        State::Normal("b".to_string()),
        State::Normal("c".to_string())]));
}

#[test]
fn three_parent() {
    let rtn = State::string_to_states_v2("p1[a],p2[b],p3[c]").unwrap();
    assert_eq!(rtn.0.len(), 3);
    assert_eq!(rtn.0[0], State::Parent("p1".to_string(), vec![State::Normal("a".to_string())]));
    assert_eq!(rtn.0[1], State::Parent("p2".to_string(), vec![State::Normal("b".to_string())]));
    assert_eq!(rtn.0[2], State::Parent("p3".to_string(), vec![State::Normal("c".to_string())]));
}

#[test]
fn meta_state_comma_end() {
    let rtn = State::string_to_states_v2("p[a,").unwrap();
    assert_eq!(rtn.0.len(), 1);
    assert_eq!(rtn.0[0], State::Parent("p".to_string(), vec![State::Normal("a".to_string())]));

    let rtn = State::string_to_states_v2("p[a,b],").unwrap();
    assert_eq!(rtn.0.len(), 1);
    assert_eq!(rtn.0[0], State::Parent("p".to_string(), vec![
        State::Normal("a".to_string()),
        State::Normal("b".to_string())]));

    let rtn = State::string_to_states_v2("a,b,").unwrap();
    assert_eq!(rtn.0.len(), 2);
    assert_eq!(rtn.0[0], State::Normal("a".to_string()));
    assert_eq!(rtn.0[1], State::Normal("b".to_string()));
}

#[test]
fn right_square_missed() {
    let rtn = State::string_to_states_v2("p[a").unwrap();
    assert_eq!(rtn.0.len(), 1);
    assert_eq!(rtn.0[0], State::Parent("p".to_string(), vec![State::Normal("a".to_string())]));

    let rtn = State::string_to_states_v2("p[a,b").unwrap();
    assert_eq!(rtn.0.len(), 1);
    assert_eq!(rtn.0[0], State::Parent("p".to_string(), vec![
        State::Normal("a".to_string()),
        State::Normal("b".to_string())]));
}

#[test]
fn only_one() {
    let rtn = State::string_to_states_v2("test").unwrap();
    assert_eq!(rtn.0.len(), 1);
    assert_eq!(rtn.0[0], State::Normal("test".to_string()));
}

#[test]
fn three() {
    let rtn = State::string_to_states_v2("a,b,c").unwrap();
    assert_eq!(rtn.0.len(), 3);
    assert_eq!(rtn.0[0], State::Normal("a".to_string()));
    assert_eq!(rtn.0[1], State::Normal("b".to_string()));
    assert_eq!(rtn.0[2], State::Normal("c".to_string()));
}

#[test]
fn meta_state_to_string() {
    let string = State::Parent("a".to_string(), vec![
        State::Parent("b".to_string(), vec![
            State::Normal("e".to_string()),
            State::Mutex(vec![
                State::Normal("f".to_string()),
                State::Normal("g".to_string()),
            ]),
            State::Normal("i".to_string()),
        ]),
        State::Normal("c".to_string()),
        State::Normal("d".to_string()),
    ]).to_string();
    assert_eq!(string, "a[b[e,f|g,i],c,d]");
}

#[test]
fn empty_text_is_refused() {
    let rtn = State::string_to_states_v2("");
    assert_eq!(
        rtn,
        Err(nature_common::error::NatureError::VerifyError(
            "states string should not be empty".to_string()
        ))
    );
}

#[test]
fn group_without_children() {
    let rtn = State::string_to_states_v2("p[]").unwrap();
    assert_eq!(rtn.0, vec![parent("p", vec![])]);
    assert_eq!(rtn.1, 3);
    let rtn = State::string_to_states_v2("p[").unwrap();
    assert_eq!(rtn.0, vec![parent("p", vec![])]);
    assert_eq!(rtn.1, 2);
}

#[test]
fn missing_bracket_and_trailing_comma_change_nothing() {
    assert_eq!(
        State::string_to_states_v2("p[a,b").unwrap().0,
        State::string_to_states_v2("p[a,b]").unwrap().0
    );
    assert_eq!(
        State::string_to_states_v2("a,b,").unwrap().0,
        State::string_to_states_v2("a,b").unwrap().0
    );
}

#[test]
fn consumed_characters_are_counted() {
    assert_eq!(State::string_to_states_v2("a,b").unwrap().1, 3);
    let rtn = State::string_to_states_v2("a]b").unwrap();
    assert_eq!(rtn.0, vec![normal("a")]);
    assert_eq!(rtn.1, 2);
    assert_eq!(State::string_to_states_v2("p[a],q").unwrap().1, 6);
}

#[test]
fn no_empty_mutex_is_made() {
    let rtn = State::string_to_states_v2("|,a").unwrap();
    assert_eq!(rtn.0, vec![normal("a")]);
    let rtn = State::string_to_states_v2(",").unwrap();
    assert_eq!(rtn.0, vec![]);
    let rtn = State::string_to_states_v2("a|").unwrap();
    assert_eq!(rtn.0, vec![State::Mutex(vec![normal("a")])]);
}

#[test]
fn text_is_read_back_as_the_same_states() {
    let texts = ["a", "a,b", "a|b", "p[]", "p[a|b,c]", "a|b[c|d,e]", "x,p[q[r|s[t]],u],v|w"];
    for text in texts {
        let states = State::string_to_states_v2(text).unwrap().0;
        let written = State::states_to_string(&states, ",");
        assert_eq!(written, text);
        let again = State::string_to_states_v2(&written).unwrap();
        assert_eq!(again.0, states);
        assert_eq!(again.1, text.len());
    }
}

#[test]
fn string_to_states_is_the_same_reader() {
    assert_eq!(
        State::string_to_states("a|b[c|d,e]").unwrap(),
        State::string_to_states_v2("a|b[c|d,e]").unwrap()
    );
}

#[test]
fn states_are_cloned_whole() {
    let states = State::string_to_states_v2("a|b[c|d,e]").unwrap().0;
    assert_eq!(states[0].clone(), states[0]);
}

#[test]
fn states_to_string_of_nothing_is_empty() {
    assert_eq!(State::states_to_string(&vec![], ","), "");
    assert_eq!(State::states_to_string(&vec![normal("a"), normal("b")], "|"), "a|b");
}

#[test]
fn one_state_is_read_from_a_flat_text() {
    assert_eq!(State::from_str("a"), Ok(normal("a")));
    assert_eq!(State::from_str("a,b"), Ok(normal("a,b")));
    assert_eq!(State::from_str("a|b|c"), Ok(State::Mutex(vec![normal("a"), normal("b"), normal("c")])));
    let empty = Err(nature_common::error::NatureError::VerifyError(
        "state string can't be empty".to_string(),
    ));
    assert_eq!(State::from_str(""), empty);
    assert_eq!(State::from_str("a|"), empty);
    assert_eq!(State::from_str("|"), empty);
    assert_eq!(State::from_str("a||b"), empty);
}
