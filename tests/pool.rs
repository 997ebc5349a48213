use artist_tools::pool::{position_of, SharedResources, TOTAL_ITEMS, TOTAL_WEIGHT_KG};

fn single(name: &str, count: usize) -> SharedResources {
    SharedResources { tools: vec![(name.to_string(), count)], paints: vec![] }
}

#[test]
fn test_shared_resources_initialization() {
    let resources = SharedResources::default();
    assert_eq!(resources.tools.len(), TOTAL_ITEMS);
    assert_eq!(resources.paints.len(), TOTAL_WEIGHT_KG);
}

#[test]
fn test_take_out_resources() {
    let mut resources = SharedResources::default();
    let initial_tool_count = resources.tools[0].1;
    resources.take_out_resources(vec!["brush".to_string()]);
    assert_eq!(resources.tools[0].1, initial_tool_count - 1);
}

#[test]
fn default_pool_lists_tools_and_paints_in_order() {
    let resources = SharedResources::default();
    let tools: Vec<&str> = resources.tools.iter().map(|t| t.0.as_str()).collect();
    assert_eq!(
        tools,
        vec![
            "brush",
            "palette",
            "canvas",
            "eraser",
            "sponges",
            "roller",
            "sculpting tool",
            "water container",
            "rags",
            "tape"
        ]
    );
    assert!(resources.tools.iter().all(|t| t.1 == 10));
    let paints: Vec<&str> = resources.paints.iter().map(|t| t.0.as_str()).collect();
    assert_eq!(
        paints,
        vec!["red", "blue", "green", "yellow", "black", "white", "purple", "orange", "pink", "brown"]
    );
    assert!(resources.paints.iter().all(|t| t.1 == 10));
}

#[test]
fn withdrawal_of_last_unit_removes_entry() {
    let mut resources = SharedResources {
        tools: vec![("brush".to_string(), 1), ("tape".to_string(), 2)],
        paints: vec![],
    };
    let missing = resources.take_out_resources(vec!["brush".to_string()]);
    assert!(missing.is_empty());
    assert_eq!(resources.tools, vec![("tape".to_string(), 2)]);
}

#[test]
fn withdrawal_of_absent_name_changes_nothing() {
    let mut resources = SharedResources::default();
    let before = resources.tools.clone();
    let missing = resources.take_out_resources(vec!["chisel".to_string()]);
    assert_eq!(missing, vec!["chisel".to_string()]);
    assert_eq!(resources.tools, before);
}

#[test]
fn repeated_withdrawal_stops_at_zero() {
    let mut resources = single("brush", 3);
    let request: Vec<String> = (0..5).map(|_| "brush".to_string()).collect();
    let missing = resources.take_out_resources(request);
    assert!(resources.tools.is_empty());
    assert_eq!(missing.len(), 2);
}

#[test]
fn mixed_request_reports_only_missing_names_in_order() {
    let mut resources = SharedResources::default();
    let missing = resources.take_out_resources(vec![
        "chisel".to_string(),
        "tape".to_string(),
        "easel".to_string(),
        "tape".to_string(),
    ]);
    assert_eq!(missing, vec!["chisel".to_string(), "easel".to_string()]);
    assert_eq!(resources.tools[9], ("tape".to_string(), 8));
    assert_eq!(resources.paints.len(), 10);
}

#[test]
fn position_of_finds_first_match() {
    let entries = vec![("a".to_string(), 1), ("b".to_string(), 2)];
    assert_eq!(position_of(&entries, &"b".to_string()), Some(1));
    assert_eq!(position_of(&entries, &"c".to_string()), None);
}
