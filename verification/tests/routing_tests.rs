use tenant_router::routing::RoutingTable;

#[test]
fn lookup_in_empty_table() {
    let table: RoutingTable<&'static str> = RoutingTable::new();
    assert!(table.lookup(42).is_none());
}

#[test]
fn upsert_then_lookup() {
    let mut table: RoutingTable<&'static str> = RoutingTable::new();
    table.upsert(42, "echo");
    assert_eq!(table.lookup(42), Some(&"echo"));
    assert!(table.lookup(99).is_none());
}

#[test]
fn upsert_replaces_existing_entry() {
    let mut table: RoutingTable<&'static str> = RoutingTable::new();
    table.upsert(42, "old");
    table.upsert(42, "new");
    assert_eq!(table.lookup(42), Some(&"new"));
}

#[test]
fn remove_deletes_only_its_entry() {
    let mut table: RoutingTable<&'static str> = RoutingTable::new();
    table.upsert(42, "echo");
    table.upsert(7, "ack");
    table.remove(42);
    assert!(table.lookup(42).is_none());
    assert_eq!(table.lookup(7), Some(&"ack"));
}

#[test]
fn remove_absent_tenant_is_harmless() {
    let mut table: RoutingTable<&'static str> = RoutingTable::new();
    table.upsert(42, "echo");
    table.remove(99);
    assert_eq!(table.lookup(42), Some(&"echo"));
}

#[test]
fn added_tenant_is_visible_and_others_untouched() {
    // A registration collaborator adds tenant 7 while 42 and 99 are in use:
    // the new entry is served and the existing ones are unchanged.
    let mut table: RoutingTable<u32> = RoutingTable::new();
    table.upsert(42, 1);
    table.upsert(99, 2);
    table.upsert(7, 3);
    assert_eq!(table.lookup(7), Some(&3));
    assert_eq!(table.lookup(42), Some(&1));
    assert_eq!(table.lookup(99), Some(&2));
}
