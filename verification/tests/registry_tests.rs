use claude_supervisor::registry::{ProcessRegistry, RUN_ID_BASE};

#[test]
fn first_registration_gets_base_run_id() {
    let mut reg = ProcessRegistry::new();
    let id = reg
        .register_claude_session(String::from("session-1"), 4321)
        .unwrap();
    assert_eq!(id, RUN_ID_BASE);
}

#[test]
fn run_ids_strictly_increase_across_registrations() {
    let mut reg = ProcessRegistry::new();
    let mut last: Option<i64> = None;
    for k in 0..20u32 {
        let id = reg
            .register_claude_session(format!("session-{}", k), 100 + k)
            .unwrap();
        if let Some(prev) = last {
            assert!(id > prev, "run ids must strictly increase");
        }
        last = Some(id);
    }
}

#[test]
fn unregister_removes_only_matching_session() {
    let mut reg = ProcessRegistry::new();
    let a = reg
        .register_claude_session(String::from("keep"), 11)
        .unwrap();
    let _b = reg
        .register_claude_session(String::from("drop"), 22)
        .unwrap();
    let c = reg
        .register_claude_session(String::from("keep"), 33)
        .unwrap();
    reg.unregister("drop");
    let all = reg.get_all().unwrap();
    assert_eq!(all.len(), 2);
    assert_eq!(all[0].run_id, a);
    assert_eq!(all[0].pid, 11);
    assert_eq!(all[0].session_id, "keep");
    assert_eq!(all[1].run_id, c);
    assert_eq!(all[1].pid, 33);
}

#[test]
fn run_ids_not_reused_after_unregister() {
    let mut reg = ProcessRegistry::new();
    let first = reg
        .register_claude_session(String::from("s1"), 1)
        .unwrap();
    reg.unregister("s1");
    assert!(reg.get_all().unwrap().is_empty());
    let second = reg
        .register_claude_session(String::from("s2"), 2)
        .unwrap();
    assert!(second > first, "a removed run id must never be reissued");
}

#[test]
fn unregister_of_unknown_session_changes_nothing() {
    let mut reg = ProcessRegistry::new();
    reg.register_claude_session(String::from("here"), 7).unwrap();
    reg.unregister("absent");
    let all = reg.get_all().unwrap();
    assert_eq!(all.len(), 1);
    assert_eq!(all[0].session_id, "here");
}
