use pfp::listing::{apply_flow_names, distinct_ids, sort_deployments};
use pfp::models::Deployment;
use pfp::params::ParamValue;

fn deployment(name: &str) -> Deployment {
    Deployment {
        id: "d".to_string(),
        name: name.to_string(),
        flow_name: String::new(),
        description: None,
        paused: false,
        work_pool_name: None,
        tags: vec![],
        parameters: ParamValue::Null,
    }
}

#[test]
fn distinct_ids_collapses_duplicates() {
    let ids = vec![
        Some("flow-1".to_string()),
        None,
        Some("flow-2".to_string()),
        Some("flow-1".to_string()),
    ];
    let distinct = distinct_ids(&ids);
    assert_eq!(distinct, vec!["flow-1".to_string(), "flow-2".to_string()]);
}

#[test]
fn list_deployments_combines_flow_names() {
    let mut deps = vec![deployment("test-deploy")];
    let ids = vec![Some("flow-1".to_string())];
    let names = vec![("flow-1".to_string(), "test_flow".to_string())];
    apply_flow_names(&mut deps, &ids, &names);
    assert_eq!(deps[0].flow_name, "test_flow");
    assert_eq!(deps[0].full_name(), "test_flow/test-deploy");
}

#[test]
fn unknown_or_missing_references_keep_their_name() {
    let mut deps = vec![deployment("a"), deployment("b")];
    deps[0].flow_name = "kept".to_string();
    let ids = vec![Some("flow-9".to_string()), None];
    let names = vec![("flow-1".to_string(), "test_flow".to_string())];
    apply_flow_names(&mut deps, &ids, &names);
    assert_eq!(deps[0].flow_name, "kept");
    assert_eq!(deps[1].flow_name, "");
}

#[test]
fn sort_orders_by_full_name() {
    let mut a = deployment("zeta");
    a.flow_name = "flow_b".to_string();
    let mut b = deployment("alpha");
    b.flow_name = "flow_a".to_string();
    let mut c = deployment("beta");
    c.flow_name = "flow_a".to_string();
    let sorted = sort_deployments(vec![a, b, c]);
    let names: Vec<String> = sorted.iter().map(|d| d.full_name()).collect();
    assert_eq!(
        names,
        vec!["flow_a/alpha", "flow_a/beta", "flow_b/zeta"]
    );
}
