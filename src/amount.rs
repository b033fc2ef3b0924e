use vstd::prelude::*;

verus! {

/// The number that a big-endian byte string stands for.
pub open spec fn be_value(s: Seq<u8>) -> nat
    decreases s.len(),
{
    if s.len() == 0 {
        0
    } else {
        be_value(s.drop_last()) * 256 + s.last() as nat
    }
}

/// The shortest big-endian byte string of `n`: one zero byte for zero.
pub open spec fn be_bytes(n: nat) -> Seq<u8>
    decreases n,
{
    if n < 256 {
        seq![n as u8]
    } else {
        be_bytes(n / 256).push((n % 256) as u8)
    }
}

/// A non-negative token amount of arbitrary size, held as big-endian bytes.
#[derive(Clone, Debug)]
pub struct Amount {
    pub digits: Vec<u8>,
}

impl View for Amount {
    type V = nat;

    open spec fn view(&self) -> nat {
        be_value(self.digits@)
    }
}

/// Relies on num_bigint's `From<u64>` for BigUint and `BigUint::to_bytes_be`:
/// the shortest big-endian bytes of the number.
#[verifier::external_body]
fn big_from_u64(v: u64) -> (r: Vec<u8>)
    ensures
        r@ == be_bytes(v as nat),
{
    num_bigint::BigUint::from(v).to_bytes_be()
}

/// Relies on num_bigint's `+` on BigUint, read from and written to big-endian bytes.
#[verifier::external_body]
fn big_add(a: &Vec<u8>, b: &Vec<u8>) -> (r: Vec<u8>)
    ensures
        r@ == be_bytes(be_value(a@) + be_value(b@)),
{
    let x = num_bigint::BigUint::from_bytes_be(a);
    let y = num_bigint::BigUint::from_bytes_be(b);
    (x + y).to_bytes_be()
}

/// Relies on num_bigint's `-` on BigUint, which panics when `b` exceeds `a`.
#[verifier::external_body]
fn big_sub(a: &Vec<u8>, b: &Vec<u8>) -> (r: Vec<u8>)
    requires
        be_value(b@) <= be_value(a@),
    ensures
        r@ == be_bytes((be_value(a@) - be_value(b@)) as nat),
{
    let x = num_bigint::BigUint::from_bytes_be(a);
    let y = num_bigint::BigUint::from_bytes_be(b);
    (x - y).to_bytes_be()
}

/// Relies on num_bigint's `Ord` on BigUint: it orders by value.
#[verifier::external_body]
fn big_le(a: &Vec<u8>, b: &Vec<u8>) -> (r: bool)
    ensures
        r == (be_value(a@) <= be_value(b@)),
{
    let x = num_bigint::BigUint::from_bytes_be(a);
    let y = num_bigint::BigUint::from_bytes_be(b);
    x <= y
}

impl Amount {
    pub fn zero() -> (r: Amount)
        ensures
            r@ == 0,
    {
        let digits: Vec<u8> = Vec::new();
        Amount { digits }
    }

    pub fn from_u64(v: u64) -> (r: Amount)
        ensures
            r@ == v as nat,
            r.digits@ == be_bytes(v as nat),
    {
        let digits = big_from_u64(v);
        proof { lemma_be_round_trip(v as nat); }
        Amount { digits }
    }

    pub fn from_be_bytes(digits: Vec<u8>) -> (r: Amount)
        ensures
            r.digits@ == digits@,
    {
        Amount { digits }
    }

    pub fn duplicate(&self) -> (r: Amount)
        ensures
            r.digits@ == self.digits@,
            r@ == self@,
    {
        Amount { digits: self.digits.clone() }
    }

    pub fn add(&self, other: &Amount) -> (r: Amount)
        ensures
            r@ == self@ + other@,
    {
        let digits = big_add(&self.digits, &other.digits);
        proof { lemma_be_round_trip(self@ + other@); }
        Amount { digits }
    }

    pub fn sub(&self, other: &Amount) -> (r: Amount)
        requires
            other@ <= self@,
        ensures
            r@ == self@ - other@,
    {
        let digits = big_sub(&self.digits, &other.digits);
        proof { lemma_be_round_trip((self@ - other@) as nat); }
        Amount { digits }
    }

    pub fn le(&self, other: &Amount) -> (r: bool)
        ensures
            r == (self@ <= other@),
    {
        big_le(&self.digits, &other.digits)
    }
}

/// Reading back the shortest big-endian bytes of a number gives the number.
pub proof fn lemma_be_round_trip(n: nat)
    ensures
        be_value(be_bytes(n)) == n,
    decreases n,
{
    if n < 256 {
        let s = be_bytes(n);
        assert(s.drop_last() =~= Seq::<u8>::empty());
        assert(be_value(s.drop_last()) == 0);
    } else {
        lemma_be_round_trip(n / 256);
        let s = be_bytes(n);
        assert(s.drop_last() =~= be_bytes(n / 256));
    }
}

/// `n` as exactly `k` big-endian bytes.
pub open spec fn be_fixed(n: nat, k: nat) -> Seq<u8>
    decreases k,
{
    if k == 0 {
        seq![]
    } else {
        be_fixed(n / 256, (k - 1) as nat).push((n % 256) as u8)
    }
}

/// The shortest CBOR head of major type `major` (its top three bits: 0x40
/// for a byte string, 0xc0 for a tag) with argument `n`.
pub open spec fn cbor_head(major: u8, n: nat) -> Seq<u8> {
    if n < 24 {
        seq![(major + n) as u8]
    } else if n < 0x100 {
        seq![(major + 24) as u8, n as u8]
    } else if n < 0x1_0000 {
        seq![(major + 25) as u8] + be_fixed(n, 2)
    } else if n < 0x1_0000_0000 {
        seq![(major + 26) as u8] + be_fixed(n, 4)
    } else {
        seq![(major + 27) as u8] + be_fixed(n, 8)
    }
}

/// The argument held in the `w` bytes after position `pos`, and the position after them.
pub open spec fn head_arg(input: Seq<u8>, pos: int, w: int) -> Option<(nat, int)> {
    if pos + 1 + w <= input.len() {
        Some((be_value(input.subrange(pos + 1, pos + 1 + w)), pos + 1 + w))
    } else {
        None
    }
}

/// The CBOR head of major type `major` at `pos`, in any of its widths: its
/// argument and the position after it.
pub open spec fn head_at(input: Seq<u8>, pos: int, major: u8) -> Option<(nat, int)> {
    if !(0 <= pos < input.len()) || !(major <= input[pos] < major + 32) {
        None
    } else {
        let info = input[pos] - major;
        if info < 24 {
            Some((info as nat, pos + 1))
        } else if info == 24 {
            head_arg(input, pos, 1)
        } else if info == 25 {
            head_arg(input, pos, 2)
        } else if info == 26 {
            head_arg(input, pos, 4)
        } else if info == 27 {
            head_arg(input, pos, 8)
        } else {
            None
        }
    }
}

/// The definite-length CBOR byte string at `pos`: its contents and the position after it.
pub open spec fn bytes_at(input: Seq<u8>, pos: int) -> Option<(Seq<u8>, int)> {
    match head_at(input, pos, 0x40) {
        None => None,
        Some((n, p)) => if p + n <= input.len() {
            Some((input.subrange(p, p + n), p + n))
        } else {
            None
        },
    }
}

/// The CBOR tag of positive bignums.
pub const POS_BIGNUM_TAG: u64 = 2;

/// Why bytes are not an encoded amount.
#[derive(Debug, PartialEq, Eq, Structural)]
pub enum AmountDecodeError {
    /// The bytes are not a tag followed by a byte string.
    Malformed,
    /// The tag is not the positive-bignum tag.
    InvalidTag,
}

/// Relies on num_bigint's `BigUint::to_bytes_be`: the shortest big-endian bytes.
#[verifier::external_body]
fn big_to_bytes(a: &Vec<u8>) -> (r: Vec<u8>)
    ensures
        r@ == be_bytes(be_value(a@)),
{
    num_bigint::BigUint::from_bytes_be(a).to_bytes_be()
}

/// Relies on minicbor's `Encoder::tag` writing into a Vec: the shortest head of the tag.
#[verifier::external_body]
fn cbor_pos_bignum_tag() -> (r: Vec<u8>)
    ensures
        r@ == cbor_head(0xc0, POS_BIGNUM_TAG as nat),
{
    let mut e = minicbor::Encoder::new(Vec::new());
    let _ = e.tag(minicbor::data::Tag::PosBignum);
    e.into_writer()
}

/// Relies on minicbor's `Encoder::bytes` writing into a Vec: the shortest
/// byte-string head, then the bytes.
#[verifier::external_body]
fn cbor_bytes(b: &Vec<u8>) -> (r: Vec<u8>)
    ensures
        r@ == cbor_head(0x40, b@.len()) + b@,
{
    let mut e = minicbor::Encoder::new(Vec::new());
    let _ = e.bytes(b);
    e.into_writer()
}

/// Relies on minicbor's `Decoder::tag` from the start of `input`: whether
/// the tag read is the positive-bignum tag, and the position after it.
#[verifier::external_body]
fn cbor_read_tag(input: &[u8]) -> (r: Option<(bool, usize)>)
    ensures
        match head_at(input@, 0, 0xc0) {
            None => r is None,
            Some((t, p)) => r == Some((t == POS_BIGNUM_TAG, p as usize)),
        },
{
    let mut d = minicbor::Decoder::new(input);
    match d.tag() {
        Ok(minicbor::data::Tag::PosBignum) => Some((true, d.position())),
        Ok(_) => Some((false, d.position())),
        Err(_) => None,
    }
}

/// Relies on minicbor's `Decoder::bytes` from position `pos` of `input`:
/// the contents of a definite-length byte string, and the position after it.
#[verifier::external_body]
fn cbor_read_bytes(input: &[u8], pos: usize) -> (r: Option<(Vec<u8>, usize)>)
    ensures
        match bytes_at(input@, pos as int) {
            None => r is None,
            Some((b, p)) => r matches Some((v, q)) && v@ == b && q == p,
        },
{
    let mut d = minicbor::Decoder::new(input);
    d.set_position(pos);
    match d.bytes() {
        Ok(b) => Some((b.to_vec(), d.position())),
        Err(_) => None,
    }
}

impl Amount {
    /// The CBOR form of the amount: the positive-bignum tag, then the
    /// shortest big-endian bytes of the number as a byte string.
    pub fn encode(&self) -> (r: Vec<u8>)
        ensures
            r@ == cbor_head(0xc0, POS_BIGNUM_TAG as nat) + cbor_head(0x40, be_bytes(self@).len())
                + be_bytes(self@),
    {
        let digits = big_to_bytes(&self.digits);
        let mut out = cbor_pos_bignum_tag();
        let mut body = cbor_bytes(&digits);
        out.append(&mut body);
        out
    }

    /// Reads an amount from the start of `input`: a positive-bignum tag and
    /// then a byte string of big-endian digits. Also gives the position just
    /// after the byte string, where decoding stopped.
    pub fn decode(input: &[u8]) -> (r: Result<(Amount, usize), AmountDecodeError>)
        ensures
            match head_at(input@, 0, 0xc0) {
                None => r == Err::<(Amount, usize), AmountDecodeError>(AmountDecodeError::Malformed),
                Some((t, p)) => if t != POS_BIGNUM_TAG {
                    r == Err::<(Amount, usize), AmountDecodeError>(AmountDecodeError::InvalidTag)
                } else {
                    match bytes_at(input@, p) {
                        None => r == Err::<(Amount, usize), AmountDecodeError>(AmountDecodeError::Malformed),
                        Some((b, end)) => r matches Ok((a, q)) && a.digits@ == b && q == end,
                    }
                },
            },
    {
        match cbor_read_tag(input) {
            None => Err(AmountDecodeError::Malformed),
            Some((is_bignum, pos)) => {
                if !is_bignum {
                    Err(AmountDecodeError::InvalidTag)
                } else {
                    match cbor_read_bytes(input, pos) {
                        None => Err(AmountDecodeError::Malformed),
                        Some((digits, end)) => Ok((Amount { digits }, end)),
                    }
                }
            },
        }
    }

    /// The amount in decimal digits, without leading zeros.
    pub fn to_decimal_string(&self) -> (r: String)
        ensures
            r@ == decimal(self@),
    {
        big_to_decimal(&self.digits)
    }
}

/// The decimal digits of `n`, without leading zeros ("0" for zero).
pub open spec fn decimal(n: nat) -> Seq<char>
    decreases n,
{
    if n < 10 {
        seq![(('0' as nat) + n) as char]
    } else {
        decimal(n / 10).push((('0' as nat) + n % 10) as char)
    }
}

/// Relies on num_bigint's `Display` for BigUint: the number in base ten,
/// without leading zeros.
#[verifier::external_body]
fn big_to_decimal(a: &Vec<u8>) -> (r: String)
    ensures
        r@ == decimal(be_value(a@)),
{
    num_bigint::BigUint::from_bytes_be(a).to_string()
}

proof fn lemma_be_fixed(n: nat, k: nat)
    ensures
        be_fixed(n, k).len() == k,
        be_value(be_fixed(n, k)) == n % (vstd::arithmetic::power::pow(256, k) as nat),
    decreases k,
{
    vstd::arithmetic::power::lemma_pow_positive(256, k);
    if k == 0 {
        assert(vstd::arithmetic::power::pow(256, 0) == 1) by {
            reveal(vstd::arithmetic::power::pow);
        }
        assert(n % 1 == 0);
    } else {
        let k1 = (k - 1) as nat;
        lemma_be_fixed(n / 256, k1);
        vstd::arithmetic::power::lemma_pow_positive(256, k1);
        let z = vstd::arithmetic::power::pow(256, k1);
        assert(vstd::arithmetic::power::pow(256, k) == 256 * z) by {
            reveal(vstd::arithmetic::power::pow);
        }
        let f = be_fixed(n, k);
        assert(f.drop_last() =~= be_fixed(n / 256, k1));
        vstd::arithmetic::div_mod::lemma_mod_breakdown(n as int, 256, z);
        assert(be_value(f) == be_value(be_fixed(n / 256, k1)) * 256 + n % 256);
        let q = (n / 256) as int;
        assert(256 * (q % z) == (q % z) * 256) by (nonlinear_arith);
    }
}

proof fn lemma_fixed_exact(n: nat, k: nat, bound: nat)
    requires
        bound == vstd::arithmetic::power::pow(256, k),
        n < bound,
    ensures
        be_fixed(n, k).len() == k,
        be_value(be_fixed(n, k)) == n,
{
    lemma_be_fixed(n, k);
    vstd::arithmetic::div_mod::lemma_small_mod(n, bound);
}

/// A head written by `cbor_head`, wherever it stands in the input, reads
/// back as its argument, and ends where it was written to end.
proof fn lemma_head_reads_back(pre: Seq<u8>, major: u8, n: nat, rest: Seq<u8>)
    requires
        major == 0x40 || major == 0xc0,
        n < 0x1_0000_0000_0000_0000,
    ensures
        head_at(pre + cbor_head(major, n) + rest, pre.len() as int, major) == Some(
            (n, (pre.len() + cbor_head(major, n).len()) as int),
        ),
{
    let h = cbor_head(major, n);
    let s = pre + h + rest;
    let p = pre.len() as int;
    assert(s[p] == h[0]);
    assert(s.len() == pre.len() + h.len() + rest.len());
    if n < 24 {
        assert(h[0] == (major + n) as u8);
        assert(s[p] - major == n);
        assert(head_at(s, p, major) == Some((n, p + h.len())));
    } else if n < 0x100 {
        assert(h[0] == (major + 24) as u8);
        assert(s[p] - major == 24);
        assert(s.subrange(p + 1, p + 2) =~= seq![n as u8]);
        assert(seq![n as u8].drop_last() =~= Seq::<u8>::empty());
        assert(be_value(Seq::<u8>::empty()) == 0);
        assert(be_value(seq![n as u8]) == n);
        assert(head_at(s, p, major) == Some((n, p + h.len())));
    } else if n < 0x1_0000 {
        assert(s[p] - major == 25);
        assert(vstd::arithmetic::power::pow(256, 2) == 0x1_0000) by {
            reveal_with_fuel(vstd::arithmetic::power::pow, 3);
        }
        lemma_fixed_exact(n, 2, 0x1_0000);
        assert(s.subrange(p + 1, p + 3) =~= be_fixed(n, 2));
        assert(head_at(s, p, major) == Some((n, p + h.len())));
    } else if n < 0x1_0000_0000 {
        assert(s[p] - major == 26);
        assert(vstd::arithmetic::power::pow(256, 4) == 0x1_0000_0000) by {
            reveal_with_fuel(vstd::arithmetic::power::pow, 5);
        }
        lemma_fixed_exact(n, 4, 0x1_0000_0000);
        assert(s.subrange(p + 1, p + 5) =~= be_fixed(n, 4));
        assert(head_at(s, p, major) == Some((n, p + h.len())));
    } else {
        assert(s[p] - major == 27);
        assert(vstd::arithmetic::power::pow(256, 8) == 0x1_0000_0000_0000_0000) by {
            reveal_with_fuel(vstd::arithmetic::power::pow, 9);
        }
        lemma_fixed_exact(n, 8, 0x1_0000_0000_0000_0000);
        assert(s.subrange(p + 1, p + 9) =~= be_fixed(n, 8));
        assert(head_at(s, p, major) == Some((n, p + h.len())));
    }
}

/// Decoding what `encode` wrote gives the amount back: the tag is the
/// positive-bignum tag, and the byte string holds the shortest big-endian
/// bytes of the number, which read back as the number.
pub proof fn lemma_amount_round_trip(n: nat)
    requires
        be_bytes(n).len() < 0x1_0000_0000_0000_0000,
    ensures
        ({
            let enc = cbor_head(0xc0, POS_BIGNUM_TAG as nat) + cbor_head(0x40, be_bytes(n).len())
                + be_bytes(n);
            &&& head_at(enc, 0, 0xc0) == Some((POS_BIGNUM_TAG as nat, 1int))
            &&& bytes_at(enc, 1) == Some((be_bytes(n), enc.len() as int))
            &&& be_value(be_bytes(n)) == n
        }),
{
    let b = be_bytes(n);
    let t = cbor_head(0xc0, POS_BIGNUM_TAG as nat);
    let h = cbor_head(0x40, b.len());
    let enc = t + h + b;
    lemma_head_reads_back(Seq::<u8>::empty(), 0xc0, POS_BIGNUM_TAG as nat, h + b);
    assert(Seq::<u8>::empty() + t + (h + b) =~= enc);
    lemma_head_reads_back(t, 0x40, b.len(), b);
    assert(t + h + b =~= enc);
    assert(enc.subrange(1 + h.len() as int, 1 + h.len() as int + b.len() as int) =~= b);
    lemma_be_round_trip(n);
}

} // verus!
