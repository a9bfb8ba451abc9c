use ts_api::{Dependencies, TypeDescriptor, TypeRegistry};

fn names(items: &[&str]) -> Vec<String> {
    items.iter().map(|s| s.to_string()).collect()
}

fn registry(types: &[(&str, &[&str])]) -> TypeRegistry {
    let mut registry = TypeRegistry::new();
    for (name, dependencies) in types {
        registry.insert(TypeDescriptor::new(name, &format!("type {name} = {{}}"), names(dependencies)));
    }
    registry
}

fn held(dependencies: &Dependencies) -> Vec<String> {
    dependencies.values().iter().map(|d| d.name.clone()).collect()
}

#[test]
fn test_generic_ts() {
    let registry = {
        let mut registry = TypeRegistry::new();
        registry.insert(TypeDescriptor::new("A", "type A = { a: B, }", names(&["B"])));
        registry.insert(TypeDescriptor::new("B", "type B = { b: C, }", names(&["C"])));
        registry.insert(TypeDescriptor::new("C", "type C = { c: number, }", names(&[])));
        registry
    };

    let mut deps = Dependencies::new();
    deps.add_all(&registry, &names(&["B", "A"]));
    let export = deps.values().iter().map(|d| format!("{}\n\n", d.declaration)).collect::<String>();

    println!("{}", export);
    assert_eq!(
        export,
        "type A = { a: B, }\n\ntype B = { b: C, }\n\ntype C = { c: number, }\n\n"
    );
}

#[test]
fn collects_everything_reachable_once() {
    let registry = registry(&[
        ("Order", &["Customer", "Item", "string"]),
        ("Customer", &["Address"]),
        ("Item", &["Price", "Item"]),
        ("Address", &[]),
        ("Price", &[]),
        ("Unrelated", &["Order"]),
    ]);
    let mut deps = Dependencies::new();
    deps.add(&registry, "Order");
    assert_eq!(held(&deps), ["Address", "Customer", "Item", "Order", "Price"]);
    assert_eq!(deps.len(), 5);
    assert!(deps.contains("Order"));
    assert!(!deps.contains("Unrelated"));
    assert!(!deps.contains("string"));
}

#[test]
fn a_type_that_mentions_itself_is_held_once() {
    let registry = registry(&[("Tree", &["Tree"])]);
    let mut deps = Dependencies::new();
    deps.add(&registry, "Tree");
    assert_eq!(held(&deps), ["Tree"]);
}

#[test]
fn a_circle_of_types_ends() {
    let registry = registry(&[("A", &["B"]), ("B", &["C"]), ("C", &["A", "D"]), ("D", &[])]);
    let mut deps = Dependencies::new();
    deps.add(&registry, "B");
    assert_eq!(held(&deps), ["A", "B", "C", "D"]);
    deps.add(&registry, "A");
    assert_eq!(held(&deps), ["A", "B", "C", "D"]);
}

#[test]
fn unknown_types_are_passed_over() {
    let registry = registry(&[("A", &["number", "B"])]);
    let mut deps = Dependencies::new();
    deps.add(&registry, "string");
    assert_eq!(deps.len(), 0);
    deps.add(&registry, "A");
    assert_eq!(held(&deps), ["A"]);
}

#[test]
fn the_order_of_collecting_does_not_matter() {
    let registry = registry(&[("A", &["C"]), ("B", &["C", "D"]), ("C", &[]), ("D", &["A"])]);
    let mut forward = Dependencies::new();
    forward.add(&registry, "A");
    forward.add(&registry, "B");
    let mut backward = Dependencies::new();
    backward.add(&registry, "B");
    backward.add(&registry, "A");
    assert_eq!(forward.values(), backward.values());
    assert_eq!(held(&forward), ["A", "B", "C", "D"]);
}

#[test]
fn the_first_declaration_under_a_name_stays() {
    let mut deps = Dependencies::new();
    deps.insert(TypeDescriptor::new("b", "first", names(&[])));
    deps.insert(TypeDescriptor::new("a", "other", names(&[])));
    deps.insert(TypeDescriptor::new("b", "second", names(&[])));
    assert_eq!(held(&deps), ["a", "b"]);
    assert_eq!(deps.values()[1].declaration, "first");

    let mut registry = TypeRegistry::new();
    registry.insert(TypeDescriptor::new("b", "first", names(&[])));
    registry.insert(TypeDescriptor::new("b", "second", names(&[])));
    assert_eq!(registry.len(), 1);
    assert_eq!(registry.get("b").unwrap().declaration, "first");
    assert!(registry.contains("b"));
    assert!(registry.get("a").is_none());
}

#[test]
fn what_is_held_is_not_entered_again() {
    let registry = registry(&[("A", &["B"]), ("B", &[])]);
    let mut deps = Dependencies::new();
    deps.insert(TypeDescriptor::new("A", "held before", names(&[])));
    deps.add(&registry, "A");
    assert_eq!(held(&deps), ["A"]);
    assert_eq!(deps.values()[0].declaration, "held before");
}

#[test]
fn copies_say_the_same() {
    let descriptor = TypeDescriptor::new("A", "type A = {}", names(&["B", "C"]));
    assert_eq!(descriptor.duplicate(), descriptor);
    assert_eq!(ts_api::types::copy_strings(&names(&["x", "y"])), names(&["x", "y"]));
    let reference = ts_api::TypeRef::new("Array<A>", names(&["A"]));
    assert_eq!(reference.duplicate(), reference);
}
