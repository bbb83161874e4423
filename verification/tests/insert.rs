use drywet::insert::{InsertChain, InsertError};
use drywet::limits::MAX_INSERTS;

#[test]
fn chain_full_keeps_previous_inserts() {
    let mut chain: InsertChain<u32> = InsertChain::new();
    assert_eq!(chain.len(), 0);
    chain.set(vec![2]).unwrap();
    let too_many: Vec<u32> = (0..=MAX_INSERTS as u32).collect();
    match chain.set(too_many) {
        Err(InsertError::ChainFull { max, got }) => {
            assert_eq!(max, MAX_INSERTS);
            assert_eq!(got, MAX_INSERTS + 1);
        }
        other => panic!("expected ChainFull, got {other:?}"),
    }
    assert_eq!(chain.len(), 1);
    assert_eq!(*chain.get_mut(0), 2);
}

#[test]
fn chain_keeps_playback_order() {
    let mut chain: InsertChain<&str> = InsertChain::new();
    chain.set(vec!["gain", "add"]).unwrap();
    assert_eq!(*chain.get_mut(0), "gain");
    assert_eq!(*chain.get_mut(1), "add");
    chain.set((0..MAX_INSERTS).map(|_| "x").collect()).unwrap();
    assert_eq!(chain.len(), MAX_INSERTS);
}
