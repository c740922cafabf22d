use score_showcases::scenario::RootScenarioGroup;

#[test]
fn root_group_starts_empty() {
    let g = RootScenarioGroup::new();
    assert_eq!(g.group.name, "root");
    assert!(g.group.groups.is_empty());
}

#[test]
fn init_registers_basic_group() {
    let mut g = RootScenarioGroup::new();
    g.init();
    assert_eq!(g.group.groups, vec!["basic".to_string()]);
    assert_eq!(g.get_group_impl().name, "root");
}
