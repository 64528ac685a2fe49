use icn_economics::did::Did;
use icn_economics::events::{balances_from_events, FlowStats, LedgerEvent, LedgerExplorer, MemoryEventStore};

fn did(s: &str) -> Did {
    Did::from_str(s).unwrap()
}

#[test]
fn replaying_events_rebuilds_balances() {
    let a = did("did:key:a");
    let b = did("did:key:b");
    let events = vec![
        LedgerEvent::Credit { did: a.clone(), amount: 10 },
        LedgerEvent::Debit { did: a.clone(), amount: 4 },
        LedgerEvent::SetBalance { did: b.clone(), amount: 7 },
        LedgerEvent::Debit { did: b.clone(), amount: 100 },
        LedgerEvent::Credit { did: b.clone(), amount: 2 },
    ];
    let entries = balances_from_events(&events);
    assert_eq!(entries.len(), 2);
    assert_eq!(entries[0].did, a);
    assert_eq!(entries[0].balance, 6);
    assert_eq!(entries[1].did, b);
    assert_eq!(entries[1].balance, 2);
}

#[test]
fn explorer_sums_flows_per_account() {
    let a = did("did:key:a");
    let b = did("did:key:b");
    let mut store = MemoryEventStore::new();
    store.append(LedgerEvent::Credit { did: a.clone(), amount: 10 }).unwrap();
    store.append(LedgerEvent::Debit { did: a.clone(), amount: 3 }).unwrap();
    store.append(LedgerEvent::Credit { did: a.clone(), amount: 5 }).unwrap();
    store.append(LedgerEvent::SetBalance { did: b.clone(), amount: 99 }).unwrap();
    assert_eq!(store.len(), 4);
    let explorer = LedgerExplorer::new(store);
    assert_eq!(explorer.stats_for(&a).unwrap(), FlowStats { inflow: 15, outflow: 3 });
    assert_eq!(explorer.stats_for(&b).unwrap(), FlowStats { inflow: 0, outflow: 0 });
    assert_eq!(explorer.stats_for(&did("did:key:none")).unwrap(), FlowStats::default());
}
