use oapi_codegen::binder::Argument;
use oapi_codegen::error::GenError;
use oapi_codegen::registry::NameRegistry;
use oapi_codegen::synth::GeneratedOperation;

fn generated(name: &str, doc: &str) -> GeneratedOperation {
    GeneratedOperation { name: name.to_string(), docs: vec![doc.to_string()], args: vec![Argument::State] }
}

fn names(registry: &NameRegistry) -> Vec<String> {
    registry.methods().iter().map(|m| m.name.clone()).collect()
}

#[test]
fn new_registry_is_empty() {
    assert!(NameRegistry::new().methods().is_empty());
}

#[test]
fn operations_leave_in_the_order_of_their_names() {
    let mut registry = NameRegistry::new();
    for name in ["get_user", "delete_user", "list_users", "create_user", "a", "zz"] {
        assert_eq!(registry.add_method(generated(name, name)), Ok(()));
    }
    assert_eq!(names(&registry), ["a", "create_user", "delete_user", "get_user", "list_users", "zz"]);
}

#[test]
fn order_of_arrival_is_immaterial() {
    let arrivals = [
        ["b", "a", "c"],
        ["a", "b", "c"],
        ["c", "b", "a"],
        ["c", "a", "b"],
        ["a", "c", "b"],
        ["b", "c", "a"],
    ];
    for arrival in arrivals {
        let mut registry = NameRegistry::new();
        for name in arrival {
            registry.add_method(generated(name, name)).unwrap();
        }
        assert_eq!(
            registry.methods(),
            &vec![generated("a", "a"), generated("b", "b"), generated("c", "c")]
        );
    }
}

#[test]
fn a_name_enters_only_once() {
    let mut registry = NameRegistry::new();
    registry.add_method(generated("get_user", "first")).unwrap();
    registry.add_method(generated("delete_user", "other")).unwrap();
    assert_eq!(
        registry.add_method(generated("get_user", "second")),
        Err(GenError::DuplicateName("get_user".to_string()))
    );
    assert_eq!(registry.methods(), &vec![generated("delete_user", "other"), generated("get_user", "first")]);
}

#[test]
fn prefixes_come_first() {
    let mut registry = NameRegistry::new();
    for name in ["get_users", "get", "get_user", ""] {
        registry.add_method(generated(name, name)).unwrap();
    }
    assert_eq!(names(&registry), ["", "get", "get_user", "get_users"]);
}
