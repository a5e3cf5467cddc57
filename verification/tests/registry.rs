use cosmwasm_simulate::messages::Message;
use cosmwasm_simulate::registry::{Registry, RegistryError, ReinstallPolicy};
use cosmwasm_simulate::storage::Order;

fn msg(call_type: &str, wasm_file: &str, contract_addr: &str) -> Message {
    Message::new(
        call_type.to_string(),
        "sender".to_string(),
        "{}".to_string(),
        wasm_file.to_string(),
        contract_addr.to_string(),
    )
}

#[test]
fn install_registers_a_contract_with_an_empty_partition() {
    let mut registry = Registry::new(ReinstallPolicy::Preserve);
    assert_eq!(registry.len(), 0);
    assert!(!registry.contains("addrA"));
    registry.install("addrA", "token", vec![0, 97, 115, 109]);
    assert_eq!(registry.len(), 1);
    assert!(registry.contains("addrA"));
    let record = registry.instantiate("addrA").unwrap();
    assert_eq!(record.address, "addrA");
    assert_eq!(record.name, "token");
    assert_eq!(record.code, vec![0, 97, 115, 109]);
    assert_eq!(registry.get("addrA", b"k").unwrap().0, None);
    assert_eq!(
        registry.range("addrA", None, None, Order::Ascending).unwrap().0.len(),
        0
    );
}

#[test]
fn instantiate_of_an_unknown_address_is_refused() {
    let registry = Registry::new(ReinstallPolicy::Preserve);
    match registry.instantiate("nobody") {
        Err(RegistryError::NotFound { address }) => assert_eq!(address, "nobody"),
        other => panic!("unexpected: {:?}", other),
    }
}

#[test]
fn partition_operations_on_an_unknown_address_are_refused() {
    let mut registry = Registry::new(ReinstallPolicy::Preserve);
    assert!(matches!(registry.get("x", b"k"), Err(RegistryError::NotFound { .. })));
    assert!(matches!(registry.set("x", b"k", b"v"), Err(RegistryError::NotFound { .. })));
    assert!(matches!(registry.remove("x", b"k"), Err(RegistryError::NotFound { .. })));
    assert!(matches!(
        registry.range("x", None, None, Order::Ascending),
        Err(RegistryError::NotFound { .. })
    ));
    assert_eq!(registry.len(), 0);
}

#[test]
fn partitions_of_two_addresses_are_isolated() {
    let mut registry = Registry::new(ReinstallPolicy::Preserve);
    registry.install("A", "a", vec![1]);
    registry.install("B", "b", vec![2]);
    registry.set("A", b"k", b"from A").unwrap();
    assert_eq!(registry.get("A", b"k").unwrap().0, Some(b"from A".to_vec()));
    assert_eq!(registry.get("B", b"k").unwrap().0, None);
    registry.set("B", b"k", b"from B").unwrap();
    assert_eq!(registry.get("A", b"k").unwrap().0, Some(b"from A".to_vec()));
    assert_eq!(registry.get("B", b"k").unwrap().0, Some(b"from B".to_vec()));
    registry.remove("A", b"k").unwrap();
    assert_eq!(registry.get("A", b"k").unwrap().0, None);
    assert_eq!(registry.get("B", b"k").unwrap().0, Some(b"from B".to_vec()));
}

#[test]
fn a_partition_outlives_the_instances_bound_to_it() {
    let mut registry = Registry::new(ReinstallPolicy::Preserve);
    registry.install("A", "a", vec![1]);
    registry.set("A", b"k", b"v").unwrap();
    let first = registry.instantiate("A").unwrap();
    drop(first);
    let _second = registry.instantiate("A").unwrap();
    assert_eq!(registry.get("A", b"k").unwrap().0, Some(b"v".to_vec()));
}

#[test]
fn reinstall_replaces_the_record_and_preserves_the_partition() {
    let mut registry = Registry::new(ReinstallPolicy::Preserve);
    registry.install("A", "old", vec![1]);
    registry.set("A", b"k", b"v").unwrap();
    registry.install("A", "new", vec![2, 3]);
    assert_eq!(registry.len(), 1);
    let record = registry.instantiate("A").unwrap();
    assert_eq!(record.name, "new");
    assert_eq!(record.code, vec![2, 3]);
    assert_eq!(registry.get("A", b"k").unwrap().0, Some(b"v".to_vec()));
}

#[test]
fn reinstall_resets_the_partition_where_the_policy_says_so() {
    let mut registry = Registry::new(ReinstallPolicy::Reset);
    registry.install("A", "old", vec![1]);
    registry.install("B", "other", vec![1]);
    registry.set("A", b"k", b"v").unwrap();
    registry.set("B", b"k", b"w").unwrap();
    registry.install("A", "new", vec![2]);
    assert_eq!(registry.get("A", b"k").unwrap().0, None);
    assert_eq!(registry.get("B", b"k").unwrap().0, Some(b"w".to_vec()));
    assert_eq!(registry.instantiate("A").unwrap().name, "new");
}

#[test]
fn a_batch_installs_one_contract_for_each_distinct_init_address() {
    let msgs = vec![
        msg("init", "a.wasm", "addrA"),
        msg("handle", "", "addrA"),
        msg("init", "b.wasm", "addrB"),
        msg("query", "", "addrC"),
        msg("init", "a2.wasm", "addrA"),
    ];
    let images = vec![Some(vec![1]), None, Some(vec![2]), None, Some(vec![3])];
    let mut registry = Registry::new(ReinstallPolicy::Preserve);
    registry.install_batch(&msgs, &images);
    assert_eq!(registry.len(), 2);
    assert!(registry.contains("addrA"));
    assert!(registry.contains("addrB"));
    assert!(!registry.contains("addrC"));
    // the later install at one address replaces the record
    assert_eq!(registry.instantiate("addrA").unwrap().code, vec![3]);
    assert_eq!(registry.instantiate("addrA").unwrap().name, "addrA");
    assert_eq!(registry.instantiate("addrB").unwrap().code, vec![2]);
}

#[test]
fn a_batch_skips_what_could_not_be_read_or_names_no_file() {
    let msgs = vec![
        msg("init", "a.wasm", "addrA"),
        msg("init", "", "addrB"),
        msg("init", "c.wasm", "addrC"),
        msg("init", "d.wasm", "addrD"),
    ];
    let images = vec![None, Some(vec![1]), Some(vec![2])];
    let mut registry = Registry::new(ReinstallPolicy::Preserve);
    registry.install_batch(&msgs, &images);
    assert_eq!(registry.len(), 1);
    assert!(registry.contains("addrC"));
}
