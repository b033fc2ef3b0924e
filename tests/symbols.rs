use many_ledger_core::address::Address;
use many_ledger_core::amount::Amount;
use many_ledger_core::client::{prepare_send, SendError};
use many_ledger_core::symbols::{
    resolve_symbol, resolve_symbols, symbol_label, symbols_are_unique, LocalName, SymbolError,
};

fn names() -> Vec<LocalName> {
    vec![
        LocalName { symbol: Address::from_bytes(vec![1, 10]), name: "MFX".to_string() },
        LocalName { symbol: Address::from_bytes(vec![1, 11]), name: "ABC".to_string() },
        LocalName { symbol: Address::from_bytes(vec![1, 12]), name: "MFX".to_string() },
    ]
}

#[test]
fn parsed_address_wins() {
    let r = resolve_symbol(&"MFX".to_string(), Some(Address::from_bytes(vec![1, 99])), &names()).unwrap();
    assert_eq!(r.bytes, vec![1, 99]);
}

#[test]
fn local_name_resolves_to_first_symbol() {
    assert_eq!(resolve_symbol(&"MFX".to_string(), None, &names()).unwrap().bytes, vec![1, 10]);
    assert_eq!(resolve_symbol(&"ABC".to_string(), None, &names()).unwrap().bytes, vec![1, 11]);
}

#[test]
fn unknown_symbol_is_an_error() {
    match resolve_symbol(&"XYZ".to_string(), None, &names()) {
        Err(SymbolError::Unresolved(s)) => assert_eq!(s, "XYZ"),
        Ok(_) => panic!("resolved an unknown symbol"),
    }
}

#[test]
fn no_symbols_means_all() {
    assert!(matches!(resolve_symbols(&vec![], &vec![], &names()), Ok(None)));
}

#[test]
fn symbols_resolve_in_order() {
    let texts = vec!["ABC".to_string(), "whatever".to_string()];
    let parsed = vec![None, Some(Address::from_bytes(vec![1, 50]))];
    let v = resolve_symbols(&texts, &parsed, &names()).unwrap().unwrap();
    assert_eq!(v.len(), 2);
    assert_eq!(v[0].bytes, vec![1, 11]);
    assert_eq!(v[1].bytes, vec![1, 50]);
}

#[test]
fn named_symbols_are_asked_for_not_all() {
    let texts = vec!["ABC".to_string()];
    match resolve_symbols(&texts, &vec![None], &names()) {
        Ok(Some(v)) => {
            assert_eq!(v.len(), 1);
            assert_eq!(v[0].bytes, vec![1, 11]);
        }
        _ => panic!("expected the named symbol"),
    }
}

#[test]
fn balance_query_takes_last_symbol_of_a_shared_name() {
    let v = resolve_symbols(&vec!["MFX".to_string()], &vec![None], &names()).unwrap().unwrap();
    assert_eq!(v[0].bytes, vec![1, 12]);
}

#[test]
fn symbol_uniqueness_is_checked() {
    assert!(symbols_are_unique(&names()));
    let mut dup = names();
    dup.push(LocalName { symbol: Address::from_bytes(vec![1, 11]), name: "OTHER".to_string() });
    assert!(!symbols_are_unique(&dup));
    assert!(symbols_are_unique(&vec![]));
}

#[test]
fn first_unresolved_symbol_is_reported() {
    let texts = vec!["ABC".to_string(), "NOPE".to_string(), "ALSO".to_string()];
    match resolve_symbols(&texts, &vec![None, None, None], &names()) {
        Err(SymbolError::Unresolved(s)) => assert_eq!(s, "NOPE"),
        Ok(_) => panic!("resolved an unknown symbol"),
    }
}

#[test]
fn label_of_symbol() {
    assert_eq!(symbol_label(&names(), &Address::from_bytes(vec![1, 11])), Some("ABC".to_string()));
    assert_eq!(symbol_label(&names(), &Address::from_bytes(vec![1, 13])), None);
}

#[test]
fn send_from_anonymous_is_refused() {
    let r = prepare_send(
        Address::anonymous(),
        Address::from_bytes(vec![1, 2]),
        Amount::from_u64(5),
        &"MFX".to_string(),
        None,
        &names(),
    );
    assert!(matches!(r, Err(SendError::InvalidIdentity)));
}

#[test]
fn send_with_unknown_symbol_is_refused_first() {
    let r = prepare_send(
        Address::anonymous(),
        Address::from_bytes(vec![1, 2]),
        Amount::from_u64(5),
        &"NOPE".to_string(),
        None,
        &names(),
    );
    assert!(matches!(r, Err(SendError::Symbol(SymbolError::Unresolved(_)))));
}

#[test]
fn send_arguments_are_built() {
    let args = prepare_send(
        Address::from_bytes(vec![1, 1]),
        Address::from_bytes(vec![1, 2]),
        Amount::from_u64(5),
        &"ABC".to_string(),
        None,
        &names(),
    )
    .unwrap();
    assert_eq!(args.from.bytes, vec![1, 1]);
    assert_eq!(args.to.bytes, vec![1, 2]);
    assert_eq!(args.symbol.bytes, vec![1, 11]);
    assert_eq!(args.amount.digits, vec![5]);
}

#[test]
fn anonymous_address_is_one_zero_byte() {
    assert!(Address::anonymous().is_anonymous());
    assert!(!Address::from_bytes(vec![0, 0]).is_anonymous());
    assert!(Address::from_bytes(vec![1, 2]).same_as(&Address::from_bytes(vec![1, 2])));
    assert!(!Address::from_bytes(vec![1, 2]).same_as(&Address::from_bytes(vec![1, 3])));
}
