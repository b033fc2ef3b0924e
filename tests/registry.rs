use many_ledger_core::registry::{module_name, Registry, Route};

#[test]
fn methods_route_by_prefix_with_fallback() {
    let mut r = Registry::new();
    assert_eq!(r.add("base".to_string()), 0);
    assert_eq!(r.add("blockchain".to_string()), 1);
    assert_eq!(r.add("async".to_string()), 2);
    assert_eq!(r.route("blockchain.info"), Route::Module(1));
    assert_eq!(r.route("async.status"), Route::Module(2));
    assert_eq!(r.route("ledger.send"), Route::Fallback);
    assert_eq!(r.route("base"), Route::Module(0));
    assert_eq!(r.route("bases.info"), Route::Fallback);
}

#[test]
fn first_registration_of_a_prefix_wins() {
    let mut r = Registry::new();
    r.add("kvstore".to_string());
    r.add("kvstore".to_string());
    assert_eq!(r.route("kvstore.put"), Route::Module(0));
}

#[test]
fn module_name_stops_at_first_dot() {
    assert_eq!(module_name("a.b.c"), vec!['a']);
    assert_eq!(module_name("ledger"), "ledger".chars().collect::<Vec<_>>());
    assert_eq!(module_name(".x"), Vec::<char>::new());
    assert_eq!(module_name(""), Vec::<char>::new());
}
