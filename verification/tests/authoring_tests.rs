use hayate::authoring::{strip_code_fences, AuthorAction, Authoring};

#[test]
fn clean_dry_run_finishes_with_that_source() {
    let mut a = Authoring::new(3);
    assert!(a.prior().is_none());
    match a.on_generated(Ok("shape_move(1, 2, 3);".to_string())) {
        AuthorAction::DryRun(src) => match a.on_dry_run(src, Ok(())) {
            AuthorAction::Done(s) => assert_eq!(s, "shape_move(1, 2, 3);"),
            other => panic!("unexpected {other:?}"),
        },
        other => panic!("unexpected {other:?}"),
    }
    assert!(a.attempts().is_empty());
}

#[test]
fn failed_dry_run_is_fed_back() {
    let mut a = Authoring::new(3);
    let next = a.on_dry_run("bad @@@".to_string(), Err("syntax error".to_string()));
    assert!(matches!(next, AuthorAction::Generate));
    let prior = a.prior().expect("the failure is fed back");
    assert_eq!(prior.source, "bad @@@");
    assert_eq!(prior.error, "syntax error");
}

#[test]
fn gives_up_after_the_budget() {
    let mut a = Authoring::new(3);
    assert!(matches!(a.on_generated(Err("offline".to_string())), AuthorAction::Generate));
    assert!(matches!(a.on_dry_run("x".to_string(), Err("e1".to_string())), AuthorAction::Generate));
    assert!(matches!(a.on_dry_run("y".to_string(), Err("e2".to_string())), AuthorAction::GiveUp));
    let all = a.into_attempts();
    assert_eq!(all.len(), 3);
    assert_eq!(all[0].source, "");
    assert_eq!(all[0].error, "offline");
    assert!(all.iter().all(|t| !t.error.is_empty()));
}

#[test]
fn zero_budget_still_tries_once() {
    let mut a = Authoring::new(0);
    assert!(matches!(a.on_dry_run("x".to_string(), Err("e".to_string())), AuthorAction::GiveUp));
}

#[test]
fn strips_fences() {
    assert_eq!(
        strip_code_fences("```rhai\nshape_move(1, 2, 3);\n```"),
        "shape_move(1, 2, 3);"
    );
    assert_eq!(strip_code_fences("```\nx\n```"), "x");
    assert_eq!(
        strip_code_fences("shape_move(1, 2, 3);"),
        "shape_move(1, 2, 3);"
    );
}

#[test]
fn fence_edge_cases() {
    // Surrounding white space goes first; a missing closing fence is tolerated.
    assert_eq!(strip_code_fences("  \n```js\n  a();\n  "), "a();");
    // A fence with no line break holds no code.
    assert_eq!(strip_code_fences("```rhai"), "");
    // Only a fence at the very start counts.
    assert_eq!(strip_code_fences(" x ```\ny\n```"), "x ```\ny\n```");
    // The closing fence may be followed by white space.
    assert_eq!(strip_code_fences("```\nb\n```  \n"), "b");
}
