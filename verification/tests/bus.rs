use drywet::bus::{validate_name, BusTable};
use drywet::limits::MAX_BUSES;
use drywet::{BusError, MixDest};

#[test]
fn bus_names_reject_empty_and_master() {
    assert_eq!(validate_name(""), Err(BusError::InvalidName));
    assert_eq!(validate_name("master"), Err(BusError::InvalidName));
    assert_eq!(validate_name("MaStEr"), Err(BusError::InvalidName));
    assert_eq!(validate_name("master "), Ok(()));
    assert_eq!(validate_name("drums"), Ok(()));
}

#[test]
fn same_name_returns_same_bus() {
    let mut table: BusTable<u32> = BusTable::new();
    let drums = table.ensure("drums").unwrap();
    let keys = table.ensure("keys").unwrap();
    assert_eq!(drums.index(), 0);
    assert_eq!(keys.index(), 1);
    assert_eq!(table.ensure("drums").unwrap(), drums);
    assert_eq!(table.id_of("drums"), Some(drums));
    assert_eq!(table.id_of("nope"), None);
    assert_eq!(table.get(drums).unwrap().name, "drums");
    assert_eq!(table.get(drums).unwrap().data, 0);
    assert_eq!(table.ensure("master"), Err(BusError::InvalidName));
}

#[test]
fn reserved_master_name_and_over_cap_keep_existing() {
    let mut table: BusTable<u32> = BusTable::new();
    assert_eq!(table.ensure("master"), Err(BusError::InvalidName));
    assert_eq!(table.ensure(""), Err(BusError::InvalidName));
    let first = table.ensure("drums").unwrap();
    for i in 1..MAX_BUSES {
        table.ensure(&format!("bus{i}")).unwrap();
    }
    assert_eq!(
        table.ensure("overflow"),
        Err(BusError::BusFull {
            max: MAX_BUSES,
            got: MAX_BUSES + 1
        })
    );
    assert_eq!(table.ensure("drums").unwrap(), first);
    assert_eq!(table.iter().len(), MAX_BUSES);
}

#[test]
fn slots_are_listed_in_order_and_mutable() {
    let mut table: BusTable<u32> = BusTable::new();
    let a = table.ensure("a").unwrap();
    let b = table.ensure("b").unwrap();
    table.get_mut(b).unwrap().data = 7;
    let listed: Vec<(usize, u32)> = table
        .iter()
        .iter()
        .map(|(id, slot)| (id.index(), slot.data))
        .collect();
    assert_eq!(listed, vec![(a.index(), 0), (b.index(), 7)]);
    assert_eq!(MixDest::default(), MixDest::Master);
}

#[test]
fn default_table_is_empty() {
    let table: BusTable<u32> = BusTable::default();
    assert!(table.iter().is_empty());
    assert_eq!(table.id_of("drums"), None);
}

#[test]
fn new_bus_starts_with_default_data() {
    let mut table: BusTable<Vec<u8>> = BusTable::new();
    let id = table.ensure("fx").unwrap();
    assert!(table.get(id).unwrap().data.is_empty());
}
