use madsim_tonic::registry::Registry;

#[test]
fn new_registry_is_empty() {
    let mut registry: Registry<u32> = Registry::new();
    assert_eq!(registry.len(), 0);
    assert!(!registry.contains("echo"));
    assert_eq!(registry.resolve("echo"), None);
    assert!(registry.lookup("echo").is_none());
    assert!(registry.handler_mut(0).is_none());
}

#[test]
fn register_then_lookup() {
    let mut registry: Registry<u32> = Registry::new();
    assert_eq!(registry.register("echo", 1), None);
    assert_eq!(registry.register("time", 2), None);
    assert_eq!(registry.len(), 2);
    assert!(registry.contains("echo"));
    assert!(registry.contains("time"));
    assert!(!registry.contains("missing"));
    assert_eq!(registry.lookup("echo").map(|h| *h), Some(1));
    assert_eq!(registry.lookup("time").map(|h| *h), Some(2));
    assert!(registry.lookup("missing").is_none());
}

#[test]
fn second_registration_replaces_and_reports() {
    let mut registry: Registry<&'static str> = Registry::new();
    assert_eq!(registry.register("echo", "first"), None);
    let slot = registry.resolve("echo");
    assert_eq!(registry.register("echo", "second"), Some("first"));
    assert_eq!(registry.len(), 1);
    assert_eq!(registry.resolve("echo"), slot);
    assert_eq!(registry.lookup("echo").map(|h| *h), Some("second"));
}

#[test]
fn replacing_one_service_leaves_the_others() {
    let mut registry: Registry<u32> = Registry::new();
    registry.register("a", 10);
    registry.register("b", 20);
    registry.register("c", 30);
    let slots = (registry.resolve("a"), registry.resolve("b"), registry.resolve("c"));
    assert_eq!(registry.register("b", 21), Some(20));
    assert_eq!((registry.resolve("a"), registry.resolve("b"), registry.resolve("c")), slots);
    assert_eq!(registry.lookup("a").map(|h| *h), Some(10));
    assert_eq!(registry.lookup("b").map(|h| *h), Some(21));
    assert_eq!(registry.lookup("c").map(|h| *h), Some(30));
    assert_eq!(registry.len(), 3);
}

#[test]
fn lookup_lends_the_handler_mutably() {
    let mut registry: Registry<Vec<u8>> = Registry::new();
    registry.register("log", Vec::new());
    registry.lookup("log").unwrap().push(7);
    registry.lookup("log").unwrap().push(8);
    assert_eq!(registry.lookup("log").map(|h| h.clone()), Some(vec![7, 8]));
    let slot = registry.resolve("log").unwrap();
    registry.handler_mut(slot).unwrap().push(9);
    assert_eq!(registry.lookup("log").map(|h| h.clone()), Some(vec![7, 8, 9]));
}

#[test]
fn slots_are_distinct_and_in_range() {
    let mut registry: Registry<u32> = Registry::new();
    registry.register("a", 1);
    registry.register("b", 2);
    let a = registry.resolve("a").unwrap();
    let b = registry.resolve("b").unwrap();
    assert_ne!(a, b);
    assert_eq!(registry.handler_mut(a).map(|h| *h), Some(1));
    assert_eq!(registry.handler_mut(b).map(|h| *h), Some(2));
    assert!(registry.handler_mut(2).is_none());
}

#[test]
fn names_are_whole_strings() {
    let mut registry: Registry<u32> = Registry::new();
    registry.register("echo", 1);
    assert!(!registry.contains("ech"));
    assert!(!registry.contains("echo "));
    assert!(!registry.contains("Echo"));
    assert!(!registry.contains(""));
    registry.register("", 2);
    assert_eq!(registry.lookup("").map(|h| *h), Some(2));
}
