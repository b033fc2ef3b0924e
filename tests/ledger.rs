use many_ledger_core::address::Address;
use many_ledger_core::amount::{Amount, AmountDecodeError};
use many_ledger_core::ledger::{Ledger, LedgerError};

fn addr(b: u8) -> Address {
    Address::from_bytes(vec![1, b, b, b])
}

fn value(a: &Amount) -> u64 {
    let mut v: u64 = 0;
    for d in &a.digits {
        v = v * 256 + *d as u64;
    }
    v
}

fn seeded() -> (Ledger, Address, Address, Address) {
    let mut l = Ledger::new();
    let (a, b, sym) = (addr(1), addr(2), addr(9));
    l.credit(&a, &sym, &Amount::from_u64(100));
    l.credit(&b, &sym, &Amount::from_u64(5));
    (l, a, b, sym)
}

#[test]
fn send_moves_amount_and_keeps_supply() {
    let (mut l, a, b, sym) = seeded();
    assert!(l.send(&a, &b, &Amount::from_u64(30), &sym).is_ok());
    let ba = value(&l.balance(&a, &sym));
    let bb = value(&l.balance(&b, &sym));
    assert_eq!(ba, 70);
    assert_eq!(bb, 35);
    assert_eq!(ba + bb, 105);
}

#[test]
fn send_whole_balance_to_new_account() {
    let (mut l, a, _b, sym) = seeded();
    let c = addr(3);
    assert!(l.send(&a, &c, &Amount::from_u64(100), &sym).is_ok());
    assert_eq!(value(&l.balance(&a, &sym)), 0);
    assert_eq!(value(&l.balance(&c, &sym)), 100);
}

#[test]
fn send_more_than_balance_is_refused() {
    let (mut l, a, b, sym) = seeded();
    let r = l.send(&b, &a, &Amount::from_u64(6), &sym);
    assert_eq!(r, Err(LedgerError::InsufficientFunds));
    assert_eq!(value(&l.balance(&a, &sym)), 100);
    assert_eq!(value(&l.balance(&b, &sym)), 5);
}

#[test]
fn send_of_other_symbol_is_refused() {
    let (mut l, a, b, _sym) = seeded();
    let other = addr(8);
    assert_eq!(l.send(&a, &b, &Amount::from_u64(1), &other), Err(LedgerError::InsufficientFunds));
    assert_eq!(value(&l.balance(&a, &other)), 0);
}

#[test]
fn send_to_self_changes_nothing() {
    let (mut l, a, _b, sym) = seeded();
    assert!(l.send(&a, &a, &Amount::from_u64(40), &sym).is_ok());
    assert_eq!(value(&l.balance(&a, &sym)), 100);
}

#[test]
fn amount_arithmetic_goes_through_bigint() {
    let x = Amount::from_u64(1125);
    assert_eq!(x.digits, vec![4, 101]);
    let y = Amount::from_be_bytes(vec![0, 0, 255]);
    assert_eq!(x.add(&y).digits, vec![5, 100]);
    assert_eq!(x.sub(&y).digits, vec![3, 102]);
    assert!(y.le(&x));
    assert!(!x.le(&y));
    let big = Amount::from_u64(u64::MAX).add(&Amount::from_u64(1));
    assert_eq!(big.digits, vec![1, 0, 0, 0, 0, 0, 0, 0, 0]);
}

#[test]
fn amount_encodes_as_tagged_bignum() {
    assert_eq!(Amount::from_u64(1125).encode(), vec![0xc2, 0x42, 4, 101]);
    assert_eq!(Amount::zero().encode(), vec![0xc2, 0x41, 0]);
    assert_eq!(Amount::from_be_bytes(vec![0, 0, 5]).encode(), vec![0xc2, 0x41, 5]);
    let long = Amount::from_be_bytes(vec![7; 30]);
    let mut expect = vec![0xc2, 0x58, 30];
    expect.extend(vec![7u8; 30]);
    assert_eq!(long.encode(), expect);
}

#[test]
fn amount_decodes_tagged_bignum() {
    let (a, end) = Amount::decode(&[0xc2, 0x42, 4, 101]).unwrap();
    assert_eq!(a.digits, vec![4, 101]);
    assert_eq!(end, 4);
    let (b, end) = Amount::decode(&[0xd8, 0x02, 0x58, 0x01, 9, 0xff, 0xff]).unwrap();
    assert_eq!(b.digits, vec![9]);
    assert_eq!(end, 5);
    let enc = Amount::from_u64(987654321).encode();
    let (c, end) = Amount::decode(&enc).unwrap();
    assert_eq!(value(&c), 987654321);
    assert_eq!(end, enc.len());
}

#[test]
fn amount_decode_errors() {
    assert_eq!(Amount::decode(&[0xc3, 0x41, 1]).unwrap_err(), AmountDecodeError::InvalidTag);
    assert_eq!(Amount::decode(&[0xc2, 0x42, 1]).unwrap_err(), AmountDecodeError::Malformed);
    assert_eq!(Amount::decode(&[]).unwrap_err(), AmountDecodeError::Malformed);
    assert_eq!(Amount::decode(&[0x42, 1, 2]).unwrap_err(), AmountDecodeError::Malformed);
    assert_eq!(Amount::decode(&[0xc2, 0x02]).unwrap_err(), AmountDecodeError::Malformed);
}

#[test]
fn amount_renders_in_decimal() {
    assert_eq!(Amount::from_u64(1125).to_decimal_string(), "1125");
    assert_eq!(Amount::zero().to_decimal_string(), "0");
    assert_eq!(Amount::from_be_bytes(vec![0, 0, 7]).to_decimal_string(), "7");
    let big = Amount::from_u64(u64::MAX).add(&Amount::from_u64(1));
    assert_eq!(big.to_decimal_string(), "18446744073709551616");
}
