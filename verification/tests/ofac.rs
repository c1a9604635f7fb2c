//! Denylist filter tests: static account keys, address-table lookups, and
//! the combined check.

use jito_relayer::addr::{Address, AddressSet};
use jito_relayer::filter::{
    is_ofac_address_in_lookup_table, is_ofac_address_in_static_keys, is_tx_ofac_related,
    TableCache, TableEntry, TableLookup, Transaction,
};

fn addr(b: u8) -> Address {
    Address::from_bytes(vec![b; 32]).expect("32 bytes")
}

fn simple_tx(payer: u8, program: u8, account: u8) -> Transaction {
    Transaction {
        static_account_keys: vec![addr(payer), addr(program), addr(account)],
        address_table_lookups: vec![],
    }
}

fn lookup_tx(payer: u8, table_key: u8, writable: Vec<u8>, readonly: Vec<u8>) -> Transaction {
    Transaction {
        static_account_keys: vec![addr(payer), addr(200)],
        address_table_lookups: vec![TableLookup {
            table_key: addr(table_key),
            writable_indexes: writable,
            readonly_indexes: readonly,
        }],
    }
}

#[test]
fn test_is_ofac_address_in_static_keys() {
    let ofac_pubkey = 9u8;
    let ofac_addresses = AddressSet::from_items(vec![addr(ofac_pubkey)]);

    // transaction touching only other addresses passes
    let tx = simple_tx(1, 2, 3);
    assert!(!is_ofac_address_in_static_keys(&tx, &ofac_addresses));

    // transaction with the denied account as writable
    let tx = simple_tx(1, 2, ofac_pubkey);
    assert!(is_ofac_address_in_static_keys(&tx, &ofac_addresses));

    // transaction with the denied account as readonly
    let tx = simple_tx(4, ofac_pubkey, 5);
    assert!(is_ofac_address_in_static_keys(&tx, &ofac_addresses));

    // transaction with the denied account as the fee-paying signer
    let tx = simple_tx(ofac_pubkey, 2, 3);
    assert!(is_ofac_address_in_static_keys(&tx, &ofac_addresses));
}

#[test]
fn test_is_ofac_address_in_lookup_table() {
    let ofac_pubkey = 9u8;
    let ofac_addresses = AddressSet::from_items(vec![addr(ofac_pubkey)]);

    let lookup_table_pubkey = 50u8;
    let mut cache = TableCache::new();
    cache.upsert(TableEntry {
        key: addr(lookup_table_pubkey),
        addresses: vec![addr(ofac_pubkey), addr(60)],
    });

    // read-only reference to the denied address
    let tx = lookup_tx(1, lookup_table_pubkey, vec![], vec![0]);
    assert!(is_ofac_address_in_lookup_table(&tx, &ofac_addresses, &cache));

    // writable reference to the denied address
    let tx = lookup_tx(1, lookup_table_pubkey, vec![0], vec![]);
    assert!(is_ofac_address_in_lookup_table(&tx, &ofac_addresses, &cache));

    // the denied address sits in the table but is not referenced
    let tx = lookup_tx(1, lookup_table_pubkey, vec![1], vec![]);
    assert!(!is_ofac_address_in_lookup_table(&tx, &ofac_addresses, &cache));
}

#[test]
fn test_discard_ofac_packets() {
    let ofac_pubkey = 9u8;
    let ofac_addresses = AddressSet::from_items(vec![addr(ofac_pubkey)]);
    let cache = TableCache::new();

    let random_tx = simple_tx(1, 2, 3);
    let ofac_tx = simple_tx(1, 2, ofac_pubkey);

    assert!(!is_tx_ofac_related(&random_tx, &ofac_addresses, &cache));
    assert!(is_tx_ofac_related(&ofac_tx, &ofac_addresses, &cache));
}

#[test]
fn test_absent_table_passes_filter() {
    // a transaction referencing a denied address only through a table the
    // cache does not hold passes the filter
    let ofac_pubkey = 9u8;
    let ofac_addresses = AddressSet::from_items(vec![addr(ofac_pubkey)]);
    let cache = TableCache::new();
    let tx = lookup_tx(1, 50, vec![0], vec![0]);
    assert!(!is_tx_ofac_related(&tx, &ofac_addresses, &cache));
}

#[test]
fn test_lookup_table_with_indexes() {
    // denied-set {X}; table T = [X, Y]; referencing index 1 keeps the
    // transaction, referencing index 0 drops it
    let x = 9u8;
    let denied = AddressSet::from_items(vec![addr(x)]);
    let mut cache = TableCache::new();
    cache.upsert(TableEntry { key: addr(50), addresses: vec![addr(x), addr(60)] });

    let keep_tx = lookup_tx(1, 50, vec![1], vec![]);
    assert!(!is_tx_ofac_related(&keep_tx, &denied, &cache));

    let drop_tx = lookup_tx(1, 50, vec![0], vec![]);
    assert!(is_tx_ofac_related(&drop_tx, &denied, &cache));
}

#[test]
fn test_table_refresh_tombstones_absent_tables() {
    let mut cache = TableCache::new();
    cache.upsert(TableEntry { key: addr(1), addresses: vec![addr(10)] });
    cache.upsert(TableEntry { key: addr(2), addresses: vec![addr(20)] });
    // the refresh reports only table 2 (with new contents) and table 3
    cache.apply_refresh(vec![
        TableEntry { key: addr(2), addresses: vec![addr(21)] },
        TableEntry { key: addr(3), addresses: vec![addr(30)] },
    ]);
    assert!(cache.get(&addr(1)).is_none());
    let t2 = cache.get(&addr(2)).expect("table 2 kept");
    assert_eq!(t2.len(), 1);
    assert_eq!(t2[0].as_bytes(), addr(21).as_bytes());
    assert!(cache.get(&addr(3)).is_some());
}
