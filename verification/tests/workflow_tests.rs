use ukweli::user::User;
use ukweli::workflow::{Engine, Transition, Validator, Workflow, WorkflowState};

fn state(id: &str, label: &str) -> WorkflowState {
    WorkflowState { id: id.to_string(), label: label.to_string() }
}

fn transition(from: &str, to: &str, name: &str, roles: &[&str]) -> Transition {
    Transition {
        from_state: from.to_string(),
        to_state: to.to_string(),
        name: name.to_string(),
        required_roles: roles.iter().map(|r| r.to_string()).collect(),
    }
}

fn create_test_workflow() -> Workflow {
    let states = vec![
        state("draft", "Draft"),
        state("review", "Under Review"),
        state("published", "Published"),
        state("archived", "Archived"),
    ];
    let transitions = vec![
        transition("draft", "review", "Submit for Review", &["editor"]),
        transition("review", "published", "Publish", &["admin", "editor"]),
        transition("review", "draft", "Return to Draft", &["editor"]),
        transition("published", "archived", "Archive", &["admin"]),
    ];
    Workflow::new(
        "test_workflow",
        "Test Workflow",
        "A test workflow",
        states,
        transitions,
        "draft",
    )
    .expect("Failed to create test workflow")
}

#[test]
fn test_workflow_empty_states() {
    let workflow = Workflow::new("test_0", "Test", "testtt", vec![], vec![], "");

    assert!(workflow.is_err())
}

#[test]
fn test_workflow_state_not_in_states() {
    let states = vec![WorkflowState {
        id: "s1".to_string(),
        label: "state 1".to_string(),
    }];

    let transitions: Vec<Transition> = vec![];

    let workflow = Workflow::new("test_0", "Test", "testtt", states, transitions, "s2");

    assert!(workflow.is_err());
}

#[test]
fn test_workflow_loads() {
    let mut engine = Engine::new();
    let workflow = create_test_workflow();

    assert_eq!(workflow.id, "test_workflow");
    assert_eq!(workflow.states.len(), 4);
    assert_eq!(workflow.transitions.len(), 4);

    let result = engine.load_workflow(workflow);
    assert!(result.is_ok(), "Workflow failed to load: {:?}", result.err());

    let fetched_workflow = engine.workflows.iter().find(|w| w.id == "test_workflow");
    assert!(fetched_workflow.is_some());

    let fetched_workflow = fetched_workflow.unwrap();
    assert_eq!(fetched_workflow.id, "test_workflow");
}

#[test]
fn test_workflow_load_rejects_dangling_transition() {
    let mut engine = Engine::new();
    let states = vec![state("a", "A")];
    let transitions = vec![transition("a", "missing", "Broken", &[])];
    let workflow = Workflow {
        id: "broken".to_string(),
        name: "Broken".to_string(),
        description: "has a dangling transition".to_string(),
        states,
        transitions,
        initial_state: "a".to_string(),
    };
    assert!(engine.load_workflow(workflow).is_err());
}

#[test]
fn test_get_valid_transitions() {
    let mut engine = Engine::new();
    engine.load_workflow(create_test_workflow()).unwrap();

    let transitions = engine.get_valid_transitions("test_workflow", "draft").unwrap();

    assert_eq!(transitions.len(), 1);
    assert_eq!(transitions[0].to_state, "review");

    let transitions = engine.get_valid_transitions("test_workflow", "review").unwrap();

    assert_eq!(transitions.len(), 2);

    let to_states = transitions.iter().map(|t| t.to_state.as_str()).collect::<Vec<&str>>();

    assert_eq!(to_states, vec!["published", "draft"]);

    let transitions = engine.get_valid_transitions("test_workflow", "archived").unwrap();

    assert_eq!(transitions.len(), 0);
}

#[test]
fn test_validate_transition_success() {
    let mut engine = Engine::new();
    engine.load_workflow(create_test_workflow()).unwrap();

    let mut editor_user = User::new("user_editor");
    editor_user.add_role("editor");

    let result = engine
        .validate_transition("test_workflow", "draft", "review", vec![editor_user], "hmmm")
        .unwrap();

    assert!(result)
}

#[test]
fn test_validate_transition_missing_role() {
    let mut engine = Engine::new();
    engine.load_workflow(create_test_workflow()).unwrap();

    let editor_user = User::new("user_editor");
    // no role granted

    let result = engine.validate_transition(
        "test_workflow",
        "draft",
        "review",
        vec![editor_user],
        "hmmm",
    );

    assert!(result.is_err());
}

#[test]
fn test_validation_transition_no_such_transition() {
    let mut engine = Engine::new();
    engine.load_workflow(create_test_workflow()).unwrap();

    let mut editor_user = User::new("user_editor");
    editor_user.add_role("editor");

    let result = engine.validate_transition(
        "test_workflow",
        "draft",
        "published", // no such transition
        vec![editor_user],
        "hmmm",
    );

    assert!(result.is_err());
}

#[test]
fn test_validate_transition_multiple_signers_combined_roles() {
    let mut engine = Engine::new();
    engine.load_workflow(create_test_workflow()).unwrap();

    let mut admin_user = User::new("user_admin");
    admin_user.add_role("admin");

    let mut editor_user = User::new("user_editor");
    editor_user.add_role("editor");

    let result1 = engine.validate_transition(
        "test_workflow",
        "review",
        "published",
        vec![admin_user.clone()],
        "hmmm",
    );

    assert!(result1.is_err());

    let result2 = engine.validate_transition(
        "test_workflow",
        "review",
        "published",
        vec![editor_user.clone()],
        "hmmm",
    );

    assert!(result2.is_err());

    let result3 = engine
        .validate_transition(
            "test_workflow",
            "review",
            "published",
            vec![admin_user, editor_user],
            "hmmm",
        )
        .unwrap();

    assert!(result3);
}

#[test]
fn test_validate_transition_unknown_workflow() {
    let engine = Engine::new();
    let result = engine.validate_transition("nope", "a", "b", vec![], "payload");
    assert!(result.is_err());
}

#[test]
fn test_validator_vocabulary() {
    let always = Validator::AlwaysTrue;
    assert!(always.validate("anything", vec![]).unwrap());

    let needs_editor = Validator::HasRole { required_roles: vec!["editor".to_string()] };
    let mut holder = User::new("holder");
    holder.add_role("editor");
    assert!(needs_editor.validate("payload", vec![holder]).unwrap());

    let bare = User::new("bare");
    assert!(needs_editor.validate("payload", vec![bare]).is_err());
}

#[test]
fn test_missing_roles_message_names_roles() {
    // The rejection names exactly the roles not covered, in order.
    let mut engine = Engine::new();
    engine.load_workflow(create_test_workflow()).unwrap();

    let mut admin_user = User::new("user_admin");
    admin_user.add_role("admin");

    match engine.validate_transition("test_workflow", "review", "published", vec![admin_user], "hmmm") {
        Err(ukweli::error::WorkflowError::Validation(msg)) => {
            assert_eq!(msg, "Missing required roles: editor");
        }
        other => panic!("expected Validation, got {:?}", other),
    }

    match engine.validate_transition("test_workflow", "review", "published", vec![], "hmmm") {
        Err(ukweli::error::WorkflowError::Validation(msg)) => {
            assert_eq!(msg, "Missing required roles: admin,editor");
        }
        other => panic!("expected Validation, got {:?}", other),
    }
}
