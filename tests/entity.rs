use rusty_gaym_engine::Entity;

#[test]
fn entities_get_distinct_random_ids() {
    let a = Entity::new();
    let b = Entity::new();
    assert!(a != b);
    assert_eq!(a.id.get_version_num(), 4);
    assert!(!a.id.is_nil());
}
