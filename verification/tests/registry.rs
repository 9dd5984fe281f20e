use bevy::ecs::component::ComponentId;
use json_ecs_sub::registry::ComponentIdRegistry;
use json_ecs_sub::QueryError;

#[test]
fn resolves_a_registered_name() {
    let mut registry = ComponentIdRegistry::new();
    registry.register(ComponentId::new(3), "Health".to_string());
    registry.register(ComponentId::new(4), "Location".to_string());
    assert_eq!(registry.short_name("Health"), Ok(ComponentId::new(3)));
    assert_eq!(registry.short_name("Location"), Ok(ComponentId::new(4)));
}

#[test]
fn an_unregistered_name_is_an_unknown_type() {
    let mut registry = ComponentIdRegistry::default();
    assert_eq!(
        registry.short_name("Health"),
        Err(QueryError::UnknownType("Health".to_string()))
    );
    registry.register(ComponentId::new(0), "Health".to_string());
    assert_eq!(
        registry.short_name("health"),
        Err(QueryError::UnknownType("health".to_string()))
    );
    assert_eq!(
        registry.short_name(""),
        Err(QueryError::UnknownType(String::new()))
    );
}

#[test]
fn registering_a_name_again_replaces_its_id() {
    let mut registry = ComponentIdRegistry::new();
    registry.register(ComponentId::new(1), "Health".to_string());
    registry.register(ComponentId::new(2), "Location".to_string());
    registry.register(ComponentId::new(7), "Health".to_string());
    assert_eq!(registry.short_name("Health"), Ok(ComponentId::new(7)));
    assert_eq!(registry.short_name("Location"), Ok(ComponentId::new(2)));
}
