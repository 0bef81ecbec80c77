use k8sfs::k8s_resource::CommandOutput;
use k8sfs::kubectl::{
    context_name, create_namespace, current_context, names_in_document, namespace_created,
    namespaces, pods, retrieve_k8s_resources,
};

fn ran(success: bool, stdout: &[u8]) -> Option<CommandOutput> {
    Some(CommandOutput { success, stdout: stdout.to_vec() })
}

#[test]
fn arguments_of_the_queries() {
    assert_eq!(current_context(), vec!["config", "current-context"]);
    assert_eq!(namespaces("ctx"), vec!["--context", "ctx", "namespace", "-ojson"]);
    assert_eq!(
        pods("ctx", "default"),
        vec!["--context", "ctx", "--namespace", "default", "pods", "-ojson"]
    );
    assert_eq!(
        create_namespace("staging", "ctx"),
        vec!["--context", "ctx", "create", "namespace", "staging"]
    );
}

#[test]
fn names_are_read_from_the_items() {
    let answer = br#"{"apiVersion":"v1","items":[
        {"metadata":{"name":"default","uid":"1"}},
        {"metadata":{"name":"kube-system"}}
    ],"kind":"List"}"#;
    assert_eq!(retrieve_k8s_resources(&ran(true, answer)), vec!["default", "kube-system"]);
}

#[test]
fn names_are_read_whatever_the_exit_status() {
    let answer = br#"{"items":[{"metadata":{"name":"default"}}]}"#;
    assert_eq!(retrieve_k8s_resources(&ran(false, answer)), vec!["default"]);
}

#[test]
fn items_without_a_name_are_passed_over() {
    let answer = br#"{"items":[
        {"kind":"Pod"},
        {"metadata":{"name":"a"}},
        {"metadata":{"labels":{}}},
        "text",
        {"metadata":{"name":"b"}}
    ]}"#;
    assert_eq!(retrieve_k8s_resources(&ran(true, answer)), vec!["a", "b"]);
}

#[test]
fn every_double_quote_leaves_a_name() {
    let answer = br#"{"items":[{"metadata":{"name":"a\"b"}},{"metadata":{"name":7}}]}"#;
    assert_eq!(retrieve_k8s_resources(&ran(true, answer)), vec!["a\\b", "7"]);
}

#[test]
fn an_answer_without_items_lists_nothing() {
    assert!(retrieve_k8s_resources(&ran(true, b"{}")).is_empty());
    assert!(retrieve_k8s_resources(&ran(true, b"null")).is_empty());
    assert!(retrieve_k8s_resources(&ran(true, br#"{"items":{}}"#)).is_empty());
    assert!(retrieve_k8s_resources(&ran(true, br#"{"items":[]}"#)).is_empty());
    assert!(retrieve_k8s_resources(&ran(true, br#"[{"metadata":{"name":"a"}}]"#)).is_empty());
}

#[test]
fn an_answer_that_is_no_json_lists_nothing() {
    assert!(retrieve_k8s_resources(&ran(true, b"")).is_empty());
    assert!(retrieve_k8s_resources(&ran(true, b"error: no cluster")).is_empty());
    assert!(retrieve_k8s_resources(&ran(true, br#"{"items":["#)).is_empty());
}

#[test]
fn a_command_that_did_not_run_lists_nothing() {
    assert!(retrieve_k8s_resources(&None).is_empty());
}

#[test]
fn names_in_a_parsed_document() {
    let document: Option<serde_json::Value> =
        serde_json::from_str(r#"{"items":[{"metadata":{"name":"nginx"}}]}"#).ok();
    assert_eq!(names_in_document(&document), vec!["nginx"]);
    assert!(names_in_document(&None).is_empty());
}

#[test]
fn context_name_is_the_trimmed_output() {
    assert_eq!(context_name(ran(true, b"minikube\n")), Some("minikube".to_string()));
    assert_eq!(context_name(ran(true, b"  kind-dev \r\n")), Some("kind-dev".to_string()));
    assert_eq!(context_name(ran(false, b"")), Some(String::new()));
}

#[test]
fn context_name_needs_utf8_and_a_command_that_ran() {
    assert_eq!(context_name(ran(true, &[0xff, 0xfe])), None);
    assert_eq!(context_name(None), None);
}

#[test]
fn namespace_is_created_when_the_command_succeeded() {
    assert!(namespace_created(&ran(true, b"namespace/staging created")));
    assert!(!namespace_created(&ran(false, b"")));
    assert!(!namespace_created(&None));
}
