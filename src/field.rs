//! Base-field and scalar-field elements held as plain little-endian limbs,
//! with their canonical decimal and big-endian byte encodings.
use vstd::prelude::*;
use ark_ff::PrimeField;
use vstd::string::StrSliceExecFns;
use vstd::arithmetic::power::{lemma_pow_adds, lemma_pow_increases, pow};
use vstd::arithmetic::div_mod::{
    lemma_fundamental_div_mod_converse,
    lemma_mod_bound,
    lemma_mul_mod_noop_general,
};

verus! {

/// The radix of one limb, `2^64`.
pub open spec fn limb_base() -> nat {
    0x1_0000_0000_0000_0000
}

/// The number that four little-endian 64-bit limbs stand for.
pub open spec fn limbs_value(l: [u64; 4]) -> nat {
    l[0] as nat + limb_base() * (l[1] as nat + limb_base() * (l[2] as nat + limb_base()
        * l[3] as nat))
}

/// The limbs of the base-field modulus `p` of BN254.
pub open spec fn fq_modulus_limbs() -> [u64; 4] {
    [0x3c208c16d87cfd47, 0x97816a916871ca8d, 0xb85045b68181585d, 0x30644e72e131a029]
}

/// The limbs of the scalar-field modulus `r` of BN254 (the order of G1 and G2).
pub open spec fn fr_modulus_limbs() -> [u64; 4] {
    [0x43e1f593f0000001, 0x2833e84879b97091, 0xb85045b68181585d, 0x30644e72e131a029]
}

/// The base-field modulus `p`.
pub open spec fn fq_modulus() -> nat {
    limbs_value(fq_modulus_limbs())
}

/// The scalar-field modulus `r`.
pub open spec fn fr_modulus() -> nat {
    limbs_value(fr_modulus_limbs())
}

/// An element of the base field, in canonical form (`wf`).
#[derive(Clone, Copy, Debug, PartialEq, Eq)]
pub struct Fq {
    pub limbs: [u64; 4],
}

impl View for Fq {
    type V = nat;

    open spec fn view(&self) -> nat {
        limbs_value(self.limbs)
    }
}

/// An element of the scalar field, in canonical form (`wf`).
#[derive(Clone, Copy, Debug, PartialEq, Eq)]
pub struct Fr {
    pub limbs: [u64; 4],
}

impl View for Fr {
    type V = nat;

    open spec fn view(&self) -> nat {
        limbs_value(self.limbs)
    }
}

fn fq_modulus_exec() -> (r: [u64; 4])
    ensures
        r == fq_modulus_limbs(),
{
    [0x3c208c16d87cfd47, 0x97816a916871ca8d, 0xb85045b68181585d, 0x30644e72e131a029]
}

fn fr_modulus_exec() -> (r: [u64; 4])
    ensures
        r == fr_modulus_limbs(),
{
    [0x43e1f593f0000001, 0x2833e84879b97091, 0xb85045b68181585d, 0x30644e72e131a029]
}

fn limbs_are_zero(l: &[u64; 4]) -> (r: bool)
    ensures
        r == (limbs_value(*l) == 0),
{
    let ghost b = limb_base();
    assert(limbs_value(*l) == 0 ==> l[0] == 0 && l[1] == 0 && l[2] == 0 && l[3] == 0)
        by (nonlinear_arith)
        requires
            limbs_value(*l) == l[0] as nat + b * (l[1] as nat + b * (l[2] as nat + b
                * l[3] as nat)),
            b > 0,
    ;
    assert(l[0] == 0 && l[1] == 0 && l[2] == 0 && l[3] == 0 ==> limbs_value(*l) == 0)
        by (nonlinear_arith)
        requires
            limbs_value(*l) == l[0] as nat + b * (l[1] as nat + b * (l[2] as nat + b
                * l[3] as nat)),
    ;
    l[0] == 0 && l[1] == 0 && l[2] == 0 && l[3] == 0
}

/// Relies on the `Display` impl of ark_ff's `BigInt`, which prints num-bigint's
/// `BigUint` of the same value: the canonical base-ten numeral.
#[verifier::external_body]
fn limbs_to_decimal(l: [u64; 4]) -> (r: String)
    ensures
        is_canonical_decimal(r@),
        decimal_value(r@) == limbs_value(l),
{
    ark_ff::BigInt::new(l).to_string()
}

/// Relies on ark_ff's `BigInteger::to_bytes_be` for `BigInt<4>`: the eight
/// bytes of each limb, most significant limb and byte first.
#[verifier::external_body]
fn limbs_to_be_bytes(l: [u64; 4]) -> (r: Vec<u8>)
    ensures
        r@ == be_bytes(limbs_value(l), 32),
{
    ark_ff::BigInteger::to_bytes_be(&ark_ff::BigInt::new(l))
}

/// The 32-byte big-endian encoding of the number held in `l`.
pub fn limbs_to_be_array(l: &[u64; 4]) -> (r: [u8; 32])
    ensures
        r@ == be_bytes(limbs_value(*l), 32),
{
    let v = limbs_to_be_bytes(*l);
    proof {
        lemma_be_bytes_len(limbs_value(*l), 32);
    }
    let mut out: [u8; 32] = [0u8; 32];
    let mut i: usize = 0;
    while i < 32
        invariant
            v@ == be_bytes(limbs_value(*l), 32),
            v@.len() == 32,
            i <= 32,
            forall|k: int| 0 <= k < i ==> out@[k] == v@[k],
        decreases 32 - i,
    {
        out[i] = v[i];
        i += 1;
    }
    assert(out@ =~= v@);
    out
}

impl Fq {
    pub open spec fn wf(&self) -> bool {
        self@ < fq_modulus()
    }

    pub fn zero() -> (r: Fq)
        ensures
            r.wf(),
            r@ == 0,
    {
        Fq { limbs: [0, 0, 0, 0] }
    }

    pub fn is_zero(&self) -> (r: bool)
        ensures
            r == (self@ == 0),
    {
        limbs_are_zero(&self.limbs)
    }

    /// The value that `from_decimal` reads from `s`, if it reads one.
    pub open spec fn from_decimal_spec(s: Seq<char>) -> Option<nat> {
        if is_canonical_decimal(s) && decimal_value(s) < fq_modulus() {
            Some(decimal_value(s))
        } else {
            None
        }
    }

    /// Reads a canonical decimal numeral below `p`. Out-of-range numerals are
    /// rejected, never reduced.
    pub fn from_decimal(s: &str) -> (r: Result<Fq, ParseError>)
        ensures
            r is Ok <==> is_canonical_decimal(s@) && decimal_value(s@) < fq_modulus(),
            r matches Ok(v) ==> v.wf() && v@ == decimal_value(s@),
    {
        let m = fq_modulus_exec();
        match parse_decimal_limbs(s, &m) {
            Some(l) => Ok(Fq { limbs: l }),
            None => Err(ParseError),
        }
    }

    /// The canonical decimal numeral of the element (`"0"` for zero).
    pub fn to_decimal(&self) -> (r: String)
        ensures
            is_canonical_decimal(r@),
            decimal_value(r@) == self@,
    {
        limbs_to_decimal(self.limbs)
    }

    /// The 32-byte big-endian encoding, zero-padded on the left.
    pub fn to_be_bytes(&self) -> (r: [u8; 32])
        ensures
            r@ == be_bytes(self@, 32),
    {
        limbs_to_be_array(&self.limbs)
    }
}

impl Fr {
    pub open spec fn wf(&self) -> bool {
        self@ < fr_modulus()
    }

    pub fn from_u64(v: u64) -> (r: Fr)
        ensures
            r.wf(),
            r@ == v,
    {
        let r = Fr { limbs: [v, 0, 0, 0] };
        assert(limbs_value(r.limbs) == v as nat);
        assert(v as nat <= 0xffff_ffff_ffff_ffff);
        proof {
            lemma_moduli_large();
        }
        r
    }

    pub fn is_zero(&self) -> (r: bool)
        ensures
            r == (self@ == 0),
    {
        limbs_are_zero(&self.limbs)
    }

    /// The value that `from_decimal` reads from `s`, if it reads one.
    pub open spec fn from_decimal_spec(s: Seq<char>) -> Option<nat> {
        if is_canonical_decimal(s) && decimal_value(s) < fr_modulus() {
            Some(decimal_value(s))
        } else {
            None
        }
    }

    /// Reads a canonical decimal numeral below `r`. Out-of-range numerals are
    /// rejected, never reduced.
    pub fn from_decimal(s: &str) -> (r: Result<Fr, ParseError>)
        ensures
            r is Ok <==> is_canonical_decimal(s@) && decimal_value(s@) < fr_modulus(),
            r matches Ok(v) ==> v.wf() && v@ == decimal_value(s@),
    {
        let m = fr_modulus_exec();
        match parse_decimal_limbs(s, &m) {
            Some(l) => Ok(Fr { limbs: l }),
            None => Err(ParseError),
        }
    }

    /// The canonical decimal numeral of the element (`"0"` for zero).
    pub fn to_decimal(&self) -> (r: String)
        ensures
            is_canonical_decimal(r@),
            decimal_value(r@) == self@,
    {
        limbs_to_decimal(self.limbs)
    }

    /// The 32-byte big-endian encoding, zero-padded on the left.
    pub fn to_be_bytes(&self) -> (r: [u8; 32])
        ensures
            r@ == be_bytes(self@, 32),
    {
        limbs_to_be_array(&self.limbs)
    }
}

/// `2^256`, one past the largest number that four limbs hold.
pub open spec fn limbs_bound() -> nat {
    limb_base() * (limb_base() * (limb_base() * limb_base()))
}

pub open spec fn is_digit(c: char) -> bool {
    '0' <= c && c <= '9'
}

pub open spec fn digit_value(c: char) -> nat {
    (c as int - '0' as int) as nat
}

/// The written form of a natural number in base ten: at least one digit,
/// digits only, and no leading zero unless the number is zero itself.
pub open spec fn is_canonical_decimal(s: Seq<char>) -> bool {
    &&& s.len() > 0
    &&& forall|i: int| 0 <= i < s.len() ==> is_digit(#[trigger] s[i])
    &&& (s[0] == '0' ==> s.len() == 1)
}

/// The number that a string of decimal digits stands for.
pub open spec fn decimal_value(s: Seq<char>) -> nat
    decreases s.len(),
{
    if s.len() == 0 {
        0
    } else {
        decimal_value(s.drop_last()) * 10 + digit_value(s.last())
    }
}

pub open spec fn is_hex_digit(c: char) -> bool {
    ('0' <= c && c <= '9') || ('a' <= c && c <= 'f') || ('A' <= c && c <= 'F')
}

pub open spec fn hex_digit_value(c: char) -> nat {
    if '0' <= c && c <= '9' {
        (c as int - '0' as int) as nat
    } else if 'a' <= c && c <= 'f' {
        (c as int - 'a' as int + 10) as nat
    } else {
        (c as int - 'A' as int + 10) as nat
    }
}

/// The number that a string of hexadecimal digits stands for.
pub open spec fn hex_value(s: Seq<char>) -> nat
    decreases s.len(),
{
    if s.len() == 0 {
        0
    } else {
        hex_value(s.drop_last()) * 16 + hex_digit_value(s.last())
    }
}

/// The digits of a hexadecimal numeral, after an optional `0x` or `0X`.
pub open spec fn hex_body(s: Seq<char>) -> Seq<char> {
    if s.len() >= 2 && s[0] == '0' && (s[1] == 'x' || s[1] == 'X') {
        s.subrange(2, s.len() as int)
    } else {
        s
    }
}

/// An optional `0x` followed by one to 64 hexadecimal digits of either case.
pub open spec fn is_hex_numeral(s: Seq<char>) -> bool {
    &&& 0 < hex_body(s).len() <= 64
    &&& forall|i: int| 0 <= i < hex_body(s).len() ==> is_hex_digit(#[trigger] hex_body(s)[i])
}

/// The 32-byte big-endian encoding of `n` (for `n < 2^256`).
pub open spec fn be_bytes(n: nat, len: nat) -> Seq<u8>
    decreases len,
{
    if len == 0 {
        Seq::empty()
    } else {
        be_bytes(n / 256, (len - 1) as nat).push((n % 256) as u8)
    }
}

pub proof fn lemma_be_bytes_len(n: nat, len: nat)
    ensures
        be_bytes(n, len).len() == len,
    decreases len,
{
    if len > 0 {
        lemma_be_bytes_len(n / 256, (len - 1) as nat);
    }
}

/// A decimal string that is not a canonical number below the field's modulus.
#[derive(Clone, Copy, Debug, PartialEq, Eq)]
pub struct ParseError;

proof fn lemma_low_limbs_bound(x0: nat, x1: nat, x2: nat)
    requires
        x0 < limb_base(),
        x1 < limb_base(),
        x2 < limb_base(),
    ensures
        x0 + limb_base() * x1 < limb_base() * limb_base(),
        x0 + limb_base() * (x1 + limb_base() * x2) < limb_base() * (limb_base() * limb_base()),
{
    let b = limb_base();
    assert(x0 + b * x1 < b * b) by (nonlinear_arith)
        requires
            x0 < b,
            x1 < b,
    ;
    assert(x0 + b * (x1 + b * x2) < b * (b * b)) by (nonlinear_arith)
        requires
            x0 + b * x1 < b * b,
            x2 < b,
    ;
}

/// Compares the numbers that two limb arrays stand for.
pub fn limbs_lt(a: &[u64; 4], b: &[u64; 4]) -> (r: bool)
    ensures
        r == (limbs_value(*a) < limbs_value(*b)),
{
    let ghost bs = limb_base();
    proof {
        lemma_low_limbs_bound(a[0] as nat, a[1] as nat, a[2] as nat);
        lemma_low_limbs_bound(b[0] as nat, b[1] as nat, b[2] as nat);
    }
    let ghost la1 = a[0] as nat + bs * a[1] as nat;
    let ghost lb1 = b[0] as nat + bs * b[1] as nat;
    let ghost la2 = a[0] as nat + bs * (a[1] as nat + bs * a[2] as nat);
    let ghost lb2 = b[0] as nat + bs * (b[1] as nat + bs * b[2] as nat);
    assert(limbs_value(*a) == la2 + bs * (bs * (bs * a[3] as nat))) by (nonlinear_arith)
        requires
            limbs_value(*a) == a[0] as nat + bs * (a[1] as nat + bs * (a[2] as nat + bs
                * a[3] as nat)),
            la2 == a[0] as nat + bs * (a[1] as nat + bs * a[2] as nat),
    ;
    assert(limbs_value(*b) == lb2 + bs * (bs * (bs * b[3] as nat))) by (nonlinear_arith)
        requires
            limbs_value(*b) == b[0] as nat + bs * (b[1] as nat + bs * (b[2] as nat + bs
                * b[3] as nat)),
            lb2 == b[0] as nat + bs * (b[1] as nat + bs * b[2] as nat),
    ;
    assert(la2 == la1 + bs * (bs * a[2] as nat)) by (nonlinear_arith)
        requires
            la2 == a[0] as nat + bs * (a[1] as nat + bs * a[2] as nat),
            la1 == a[0] as nat + bs * a[1] as nat,
    ;
    assert(lb2 == lb1 + bs * (bs * b[2] as nat)) by (nonlinear_arith)
        requires
            lb2 == b[0] as nat + bs * (b[1] as nat + bs * b[2] as nat),
            lb1 == b[0] as nat + bs * b[1] as nat,
    ;
    if a[3] != b[3] {
        assert((a[3] < b[3]) == (la2 + bs * (bs * (bs * a[3] as nat)) < lb2 + bs * (bs * (bs
            * b[3] as nat)))) by (nonlinear_arith)
            requires
                la2 < bs * (bs * bs),
                lb2 < bs * (bs * bs),
                a[3] != b[3],
        ;
        a[3] < b[3]
    } else if a[2] != b[2] {
        assert((a[2] < b[2]) == (la1 + bs * (bs * a[2] as nat) < lb1 + bs * (bs
            * b[2] as nat))) by (nonlinear_arith)
            requires
                la1 < bs * bs,
                lb1 < bs * bs,
                a[2] != b[2],
        ;
        a[2] < b[2]
    } else if a[1] != b[1] {
        assert((a[1] < b[1]) == ((a[0] as nat) + bs * (a[1] as nat) < (b[0] as nat) + bs * (b[1] as nat))) by (nonlinear_arith)
            requires
                a[0] < bs,
                b[0] < bs,
                a[1] != b[1],
        ;
        a[1] < b[1]
    } else {
        a[0] < b[0]
    }
}

/// One step of reading a numeral in radix `m`: `a * m + d`, with the carry
/// out of the top limb.
fn mul_add(a: &[u64; 4], m: u64, d: u64) -> (r: ([u64; 4], u64))
    requires
        m <= 16,
        d < m,
    ensures
        limbs_value(r.0) + limbs_bound() * r.1 == limbs_value(*a) * m + d,
{
    let base: u128 = 0x1_0000_0000_0000_0000;
    assert(a[0] as u128 * m as u128 <= 0xffff_ffff_ffff_ffff * 16) by (nonlinear_arith)
        requires
            m <= 16,
    ;
    assert(a[1] as u128 * m as u128 <= 0xffff_ffff_ffff_ffff * 16) by (nonlinear_arith)
        requires
            m <= 16,
    ;
    assert(a[2] as u128 * m as u128 <= 0xffff_ffff_ffff_ffff * 16) by (nonlinear_arith)
        requires
            m <= 16,
    ;
    assert(a[3] as u128 * m as u128 <= 0xffff_ffff_ffff_ffff * 16) by (nonlinear_arith)
        requires
            m <= 16,
    ;
    let t0: u128 = a[0] as u128 * m as u128 + d as u128;
    let t1: u128 = a[1] as u128 * m as u128 + t0 / base;
    let t2: u128 = a[2] as u128 * m as u128 + t1 / base;
    let t3: u128 = a[3] as u128 * m as u128 + t2 / base;
    let r: [u64; 4] = [(t0 % base) as u64, (t1 % base) as u64, (t2 % base) as u64, (t3
        % base) as u64];
    let c: u64 = (t3 / base) as u64;
    proof {
        let b: int = 0x1_0000_0000_0000_0000;
        let (q0, q1, q2, q3) = ((t0 / base) as int, (t1 / base) as int, (t2 / base) as int, (
        t3 / base) as int);
        let (r0, r1, r2, r3) = ((t0 % base) as int, (t1 % base) as int, (t2 % base) as int, (
        t3 % base) as int);
        assert(t0 == r0 + b * q0);
        assert(t1 == r1 + b * q1);
        assert(t2 == r2 + b * q2);
        assert(t3 == r3 + b * q3);
        let (a0, a1, a2, a3) = (a[0] as int, a[1] as int, a[2] as int, a[3] as int);
        let u3 = r3 + b * q3;
        let u2 = r2 + b * u3;
        let u1 = r1 + b * u2;
        let k = m as int;
        assert(u2 == k * (a2 + b * a3) + q1) by (nonlinear_arith)
            requires
                u2 == r2 + b * u3,
                u3 == a3 * k + q2,
                r2 + b * q2 == a2 * k + q1,
        ;
        assert(u1 == k * (a1 + b * (a2 + b * a3)) + q0) by (nonlinear_arith)
            requires
                u1 == r1 + b * u2,
                u2 == k * (a2 + b * a3) + q1,
                r1 + b * q1 == a1 * k + q0,
        ;
        assert(r0 + b * u1 == k * (a0 + b * (a1 + b * (a2 + b * a3))) + d) by (nonlinear_arith)
            requires
                u1 == k * (a1 + b * (a2 + b * a3)) + q0,
                r0 + b * q0 == a0 * k + d,
        ;
        assert(r0 + b * (r1 + b * (r2 + b * r3)) + b * (b * (b * b)) * q3 == r0 + b * u1)
            by (nonlinear_arith)
            requires
                u3 == r3 + b * q3,
                u2 == r2 + b * u3,
                u1 == r1 + b * u2,
        ;
        let v = a0 + b * (a1 + b * (a2 + b * a3));
        assert(v * k == k * v) by (nonlinear_arith);
        assert(limbs_value(*a) == v);
    }
    (r, c)
}

proof fn lemma_decimal_value_grows(s: Seq<char>, j: int)
    requires
        0 <= j <= s.len(),
        forall|i: int| 0 <= i < s.len() ==> is_digit(#[trigger] s[i]),
    ensures
        decimal_value(s.subrange(0, j)) <= decimal_value(s),
    decreases s.len() - j,
{
    if j < s.len() {
        lemma_decimal_value_grows(s, j + 1);
        assert(s.subrange(0, j + 1).drop_last() =~= s.subrange(0, j));
    } else {
        assert(s.subrange(0, j) =~= s);
    }
}

/// Reads a canonical decimal numeral as four limbs, failing unless it names a
/// number below `modulus`. Nothing is reduced.
pub fn parse_decimal_limbs(s: &str, modulus: &[u64; 4]) -> (r: Option<[u64; 4]>)
    requires
        limbs_value(*modulus) > 0,
    ensures
        r is Some <==> is_canonical_decimal(s@) && decimal_value(s@) < limbs_value(*modulus),
        r matches Some(v) ==> limbs_value(v) == decimal_value(s@),
{
    let n = s.unicode_len();
    if n == 0 {
        return None;
    }
    if n > 1 && s.get_char(0) == '0' {
        return None;
    }
    let mut acc: [u64; 4] = [0, 0, 0, 0];
    let mut i: usize = 0;
    while i < n
        invariant
            n == s@.len(),
            0 < n,
            i <= n,
            s@[0] == '0' ==> n == 1,
            forall|k: int| 0 <= k < i ==> is_digit(#[trigger] s@[k]),
            limbs_value(acc) == decimal_value(s@.subrange(0, i as int)),
            limbs_value(acc) < limbs_value(*modulus),
        decreases n - i,
    {
        let c = s.get_char(i);
        if !('0' <= c && c <= '9') {
            return None;
        }
        let d: u64 = (c as u64) - ('0' as u64);
        let (next, carry) = mul_add(&acc, 10, d);
        proof {
            assert(s@.subrange(0, i + 1).drop_last() =~= s@.subrange(0, i as int));
            assert(s@.subrange(0, i + 1).last() == c);
            assert(digit_value(c) == d);
            assert(decimal_value(s@.subrange(0, i + 1)) == limbs_value(acc) * 10 + d);
        }
        if carry != 0 || !limbs_lt(&next, modulus) {
            proof {
                assert(limbs_value(next) + limbs_bound() * carry >= limbs_value(*modulus)) by {
                    if carry != 0 {
                        assert(limbs_bound() * carry >= limbs_bound()) by (nonlinear_arith)
                            requires
                                carry >= 1,
                        ;
                        assert(limbs_value(*modulus) < limbs_bound()) by {
                            lemma_low_limbs_bound(
                                modulus[0] as nat,
                                modulus[1] as nat,
                                modulus[2] as nat,
                            );
                            let b = limb_base();
                            let m = modulus[3] as nat;
                            let lo = modulus[0] as nat + b * (modulus[1] as nat + b
                                * modulus[2] as nat);
                            assert(lo + b * (b * (b * m)) < b * (b * (b * b)))
                                by (nonlinear_arith)
                                requires
                                    lo < b * (b * b),
                                    m < b,
                            ;
                            assert(limbs_value(*modulus) == lo + b * (b * (b * m)))
                                by (nonlinear_arith)
                                requires
                                    lo == modulus[0] as nat + b * (modulus[1] as nat + b
                                        * modulus[2] as nat),
                                    limbs_value(*modulus) == modulus[0] as nat + b * (
                                    modulus[1] as nat + b * (modulus[2] as nat + b * m)),
                            ;
                        }
                    }
                }
                if is_canonical_decimal(s@) {
                    lemma_decimal_value_grows(s@, i + 1);
                }
            }
            return None;
        }
        assert(limbs_bound() * carry == 0) by (nonlinear_arith)
            requires
                carry == 0,
        ;
        acc = next;
        i += 1;
    }
    assert(s@.subrange(0, n as int) =~= s@);
    Some(acc)
}

/// The modulus `p` as an integer, for the arithmetic below.
pub open spec fn p() -> int {
    fq_modulus() as int
}

pub open spec fn fq_add(a: int, b: int) -> int {
    (a + b) % p()
}

pub open spec fn fq_sub(a: int, b: int) -> int {
    (a - b) % p()
}

pub open spec fn fq_mul(a: int, b: int) -> int {
    (a * b) % p()
}

pub open spec fn fq_neg(a: int) -> int {
    (0 - a) % p()
}

/// The inverse of a non-zero element, `a^(p-2)` by Fermat's little theorem.
pub open spec fn fq_inv(a: int) -> int {
    pow(a, (p() - 2) as nat) % p()
}

/// Negating twice gives back a canonical element.
pub proof fn lemma_fq_neg_neg(a: int)
    requires
        0 <= a < p(),
    ensures
        0 <= fq_neg(a) < p(),
        fq_neg(fq_neg(a)) == a,
        fq_add(a, fq_neg(a)) == 0,
{
    let m = p();
    if a == 0 {
        assert(fq_neg(a) == 0);
    } else {
        lemma_fundamental_div_mod_converse(0 - a, m, -1, m - a);
        lemma_fundamental_div_mod_converse(0 - (m - a), m, -1, a);
        lemma_fundamental_div_mod_converse(a + (m - a), m, 1, 0);
    }
}

/// Negating both factors leaves a product unchanged; a negation is canonical.
pub proof fn lemma_fq_neg_mul(a: int, b: int)
    ensures
        fq_mul(fq_neg(a), fq_neg(b)) == fq_mul(a, b),
        0 <= fq_neg(a) < p(),
{
    let m = p();
    lemma_moduli_large();
    lemma_mul_mod_noop_general(0 - a, 0 - b, m);
    assert((0 - a) * (0 - b) == a * b) by (nonlinear_arith);
    lemma_mod_bound(0 - a, m);
}

/// Both moduli exceed `2^64`.
pub proof fn lemma_moduli_large()
    ensures
        fq_modulus() > 0xffff_ffff_ffff_ffff,
        fr_modulus() > 0xffff_ffff_ffff_ffff,
{
    let b = limb_base();
    let m = fr_modulus_limbs();
    let q = fq_modulus_limbs();
    assert(limbs_value(m) >= b * (b * (b * m[3] as nat))) by (nonlinear_arith)
        requires
            limbs_value(m) == m[0] as nat + b * (m[1] as nat + b * (m[2] as nat + b
                * m[3] as nat)),
    ;
    assert(limbs_value(q) >= b * (b * (b * q[3] as nat))) by (nonlinear_arith)
        requires
            limbs_value(q) == q[0] as nat + b * (q[1] as nat + b * (q[2] as nat + b
                * q[3] as nat)),
    ;
    assert(b * (b * (b * m[3] as nat)) > 0xffff_ffff_ffff_ffff) by (nonlinear_arith)
        requires
            b == 0x1_0000_0000_0000_0000,
            m[3] as nat >= 1,
    ;
}

/// Decoding what encoding wrote gives the element back: `to_decimal` writes
/// the canonical numeral of a value below the modulus, and `from_decimal`
/// reads exactly such numerals, to their value.
pub proof fn lemma_decimal_round_trip(x: Fq, s: Seq<char>)
    requires
        x.wf(),
        is_canonical_decimal(s),
        decimal_value(s) == x@,
    ensures
        Fq::from_decimal_spec(s) == Some(x@),
{
}

/// The same round trip for scalars.
pub proof fn lemma_scalar_decimal_round_trip(x: Fr, s: Seq<char>)
    requires
        x.wf(),
        is_canonical_decimal(s),
        decimal_value(s) == x@,
    ensures
        Fr::from_decimal_spec(s) == Some(x@),
{
}

/// The big-endian encoding is 32 bytes whatever the value.
pub proof fn lemma_be_encoding_is_32_bytes(n: nat)
    ensures
        be_bytes(n, 32).len() == 32,
{
    lemma_be_bytes_len(n, 32);
}

proof fn lemma_decimal_bounds(s: Seq<char>)
    requires
        s.len() >= 1,
        forall|i: int| 0 <= i < s.len() ==> is_digit(#[trigger] s[i]),
    ensures
        decimal_value(s) < pow(10, s.len()),
        s[0] != '0' ==> decimal_value(s) >= pow(10, (s.len() - 1) as nat),
    decreases s.len(),
{
    reveal_with_fuel(pow, 2);
    let n = s.len();
    if n == 1 {
        assert(s.drop_last() =~= Seq::<char>::empty());
        assert(decimal_value(s.drop_last()) == 0);
    } else {
        let t = s.drop_last();
        assert(forall|i: int| 0 <= i < t.len() ==> is_digit(#[trigger] t[i]) && t[i] == s[i]);
        lemma_decimal_bounds(t);
        let v = decimal_value(t);
        let d = digit_value(s.last());
        lemma_pow_adds(10, (n - 1) as nat, 1);
        assert(decimal_value(s) < pow(10, n)) by (nonlinear_arith)
            requires
                decimal_value(s) == v * 10 + d,
                v < pow(10, (n - 1) as nat),
                d < 10,
                pow(10, n) == pow(10, (n - 1) as nat) * 10,
        ;
        if s[0] != '0' {
            lemma_pow_adds(10, (n - 2) as nat, 1);
            assert(decimal_value(s) >= pow(10, (n - 1) as nat)) by (nonlinear_arith)
                requires
                    decimal_value(s) == v * 10 + d,
                    v >= pow(10, (n - 2) as nat),
                    pow(10, (n - 1) as nat) == pow(10, (n - 2) as nat) * 10,
            ;
        }
    }
}

/// A number has one canonical decimal numeral: two canonical numerals of the
/// same value are the same string. So `to_decimal` after `from_decimal` gives
/// back the string that was read.
pub proof fn lemma_canonical_decimal_unique(s: Seq<char>, t: Seq<char>)
    requires
        is_canonical_decimal(s),
        is_canonical_decimal(t),
        decimal_value(s) == decimal_value(t),
    ensures
        s == t,
    decreases s.len(),
{
    lemma_decimal_bounds(s);
    lemma_decimal_bounds(t);
    if s.len() < t.len() {
        lemma_pow_increases(10, s.len(), (t.len() - 1) as nat);
    } else if t.len() < s.len() {
        lemma_pow_increases(10, t.len(), (s.len() - 1) as nat);
    }
    assert(s.len() == t.len());
    let (ds, dt) = (digit_value(s.last()), digit_value(t.last()));
    let (vs, vt) = (decimal_value(s.drop_last()), decimal_value(t.drop_last()));
    lemma_fundamental_div_mod_converse(decimal_value(s) as int, 10, vs as int, ds as int);
    lemma_fundamental_div_mod_converse(decimal_value(t) as int, 10, vt as int, dt as int);
    assert(s.last() == t.last());
    if s.len() > 1 {
        let (s1, t1) = (s.drop_last(), t.drop_last());
        assert(forall|i: int| 0 <= i < s1.len() ==> is_digit(#[trigger] s1[i]) && s1[i] == s[i]);
        assert(forall|i: int| 0 <= i < t1.len() ==> is_digit(#[trigger] t1[i]) && t1[i] == t[i]);
        lemma_canonical_decimal_unique(s1, t1);
        assert(s =~= s1.push(s.last()));
        assert(t =~= t1.push(t.last()));
    } else {
        assert(s =~= seq![s.last()]);
        assert(t =~= seq![t.last()]);
    }
}

/// Relies on ark_ff's `PrimeField::from_be_bytes_mod_order` for `Fr`, which
/// reduces the number that the bytes stand for modulo `r` (the bytes come
/// from `BigInteger::to_bytes_be`).
#[verifier::external_body]
fn reduce_mod_r(l: [u64; 4]) -> (r: Fr)
    ensures
        r.wf(),
        r@ == limbs_value(l) % fr_modulus(),
{
    let b = ark_ff::BigInteger::to_bytes_be(&ark_ff::BigInt(l));
    Fr { limbs: ark_bn254::Fr::from_be_bytes_mod_order(&b).into_bigint().0 }
}

proof fn lemma_pow16_64()
    ensures
        pow(16, 64) == limbs_bound(),
{
    reveal_with_fuel(pow, 17);
    assert(pow(16, 16) == limb_base());
    lemma_pow_adds(16, 16, 16);
    lemma_pow_adds(16, 32, 16);
    lemma_pow_adds(16, 48, 16);
}

impl Fr {
    /// Reads a hexadecimal numeral (an optional `0x`, then one to 64 digits)
    /// and reduces it modulo `r`, as wanted for scalars derived from digests.
    pub fn from_hex_mod_order(s: &str) -> (r: Result<Fr, ParseError>)
        ensures
            r is Ok <==> is_hex_numeral(s@),
            r matches Ok(v) ==> v.wf() && v@ == hex_value(hex_body(s@)) % fr_modulus(),
    {
        let n = s.unicode_len();
        let start: usize = if n >= 2 && s.get_char(0) == '0' && (s.get_char(1) == 'x'
            || s.get_char(1) == 'X') {
            2
        } else {
            0
        };
        let ghost body = hex_body(s@);
        assert(body =~= s@.subrange(start as int, n as int));
        if n - start == 0 || n - start > 64 {
            return Err(ParseError);
        }
        let mut acc: [u64; 4] = [0, 0, 0, 0];
        let mut i: usize = start;
        proof {
            reveal_with_fuel(pow, 1);
        }
        while i < n
            invariant
                n == s@.len(),
                start <= i <= n,
                n - start <= 64,
                body == hex_body(s@),
                body =~= s@.subrange(start as int, n as int),
                forall|k: int| 0 <= k < i - start ==> is_hex_digit(#[trigger] body[k]),
                limbs_value(acc) == hex_value(body.subrange(0, i - start)),
                limbs_value(acc) < pow(16, (i - start) as nat),
            decreases n - i,
        {
            let c = s.get_char(i);
            let d: u64 = if '0' <= c && c <= '9' {
                (c as u64) - ('0' as u64)
            } else if 'a' <= c && c <= 'f' {
                (c as u64) - ('a' as u64) + 10
            } else if 'A' <= c && c <= 'F' {
                (c as u64) - ('A' as u64) + 10
            } else {
                assert(body[i - start] == s@[i as int]);
                assert(!is_hex_digit(hex_body(s@)[i - start]));
                return Err(ParseError);
            };
            let (next, carry) = mul_add(&acc, 16, d);
            let ghost j = (i - start) as nat;
            proof {
                let t = body.subrange(0, j as int + 1);
                assert(t.drop_last() =~= body.subrange(0, j as int));
                assert(t.last() == c);
                assert(hex_value(t) == limbs_value(acc) * 16 + d);
                lemma_pow_adds(16, j, 1);
                reveal_with_fuel(pow, 2);
                assert(limbs_value(acc) * 16 + d < pow(16, j + 1)) by (nonlinear_arith)
                    requires
                        limbs_value(acc) < pow(16, j),
                        pow(16, j + 1) == pow(16, j) * 16,
                        d < 16,
                ;
                lemma_pow_increases(16, j + 1, 64);
                lemma_pow16_64();
                assert(carry == 0) by (nonlinear_arith)
                    requires
                        limbs_value(next) + limbs_bound() * carry < limbs_bound(),
                ;
            }
            acc = next;
            i += 1;
        }
        assert(body.subrange(0, (n - start) as int) =~= body);
        Ok(reduce_mod_r(acc))
    }
}

} // verus!
