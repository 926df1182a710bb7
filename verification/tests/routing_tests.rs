use fubuki::net::Ipv4Cidr;
use fubuki::routing_table::{create, ArrayRoutingTable, Extend, Item, ItemKind};

fn item(addr: u32, prefix: u8, gateway: u32) -> Item {
    Item {
        cidr: Ipv4Cidr { addr, prefix },
        gateway,
        interface_index: 0,
        extend: Extend { item_kind: Some(ItemKind::VirtualRange) },
    }
}

#[test]
fn create_gives_empty_table() {
    let t = create();
    assert_eq!(t.len(), 0);
    assert!(t.find(0x0A00_0001).is_none());
}

#[test]
fn find_prefers_longest_prefix() {
    let mut t = ArrayRoutingTable::new();
    t.add(item(0x0A00_0000, 8, 1)); // 10.0.0.0/8
    t.add(item(0x0A01_0000, 16, 2)); // 10.1.0.0/16
    t.add(item(0x0A01_0200, 24, 3)); // 10.1.2.0/24
    let hit = t.find(0x0A01_0203).expect("covered");
    assert_eq!(hit.gateway, 3);
    let hit = t.find(0x0A01_0303).expect("covered");
    assert_eq!(hit.gateway, 2);
    let hit = t.find(0x0A02_0000).expect("covered");
    assert_eq!(hit.gateway, 1);
    assert!(t.find(0x0B00_0000).is_none());
}

#[test]
fn insertion_order_breaks_prefix_ties() {
    let mut t = ArrayRoutingTable::new();
    t.add(item(0x0A01_0200, 24, 1));
    t.add(item(0x0A01_0200, 24, 2));
    // both cover the address with equal prefixes; the earlier insertion wins
    let hit = t.find(0x0A01_0201).expect("covered");
    assert_eq!(hit.gateway, 1);
}

#[test]
fn add_keeps_descending_prefix_order() {
    let mut t = ArrayRoutingTable::new();
    t.add(item(0x0A00_0000, 8, 1));
    t.add(item(0x0A01_0200, 24, 3));
    t.add(item(0x0A01_0000, 16, 2));
    let mut last = 33u8;
    for i in 0..t.len() {
        let it = t.get(i);
        assert!(it.cidr.prefix <= last);
        last = it.cidr.prefix;
    }
}

#[test]
fn remove_takes_out_the_named_block() {
    let mut t = ArrayRoutingTable::new();
    t.add(item(0x0A00_0000, 8, 1));
    t.add(item(0x0A01_0000, 16, 2));
    let gone = t.remove(&Ipv4Cidr { addr: 0x0A01_0000, prefix: 16 }).expect("present");
    assert_eq!(gone.gateway, 2);
    assert!(t.remove(&Ipv4Cidr { addr: 0x0A01_0000, prefix: 16 }).is_none());
    let hit = t.find(0x0A01_0001).expect("still covered by /8");
    assert_eq!(hit.gateway, 1);
}
