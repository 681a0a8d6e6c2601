//! Natural numbers of any size as little-endian vectors of 64-bit limbs, with
//! the few operations that exact weight comparison needs.
use vstd::prelude::*;

verus! {

/// The value of one limb position.
pub open spec fn limb_base() -> int {
    0x1_0000_0000_0000_0000
}

/// `limb_base()` to the power `n`.
pub open spec fn base_pow(n: nat) -> int
    decreases n,
{
    if n == 0 { 1 } else { limb_base() * base_pow((n - 1) as nat) }
}

/// The limb at position `i`, or zero past the end.
pub open spec fn limb(s: Seq<u64>, i: int) -> int {
    if 0 <= i < s.len() { s[i] as int } else { 0 }
}

/// The value of the lowest `n` limb positions.
pub open spec fn value_upto(s: Seq<u64>, n: nat) -> int
    decreases n,
{
    if n == 0 { 0 } else { value_upto(s, (n - 1) as nat) + limb(s, n - 1) * base_pow((n - 1) as nat) }
}

/// The number that the limbs stand for.
pub open spec fn value(s: Seq<u64>) -> int {
    value_upto(s, s.len())
}

proof fn lemma_base_pow_pos(n: nat)
    ensures
        base_pow(n) > 0,
    decreases n,
{
    if n > 0 {
        lemma_base_pow_pos((n - 1) as nat);
        assert(limb_base() * base_pow((n - 1) as nat) > 0) by (nonlinear_arith)
            requires
                base_pow((n - 1) as nat) > 0,
        ;
    }
}

proof fn lemma_value_upto_bounds(s: Seq<u64>, n: nat)
    ensures
        0 <= value_upto(s, n) < base_pow(n),
    decreases n,
{
    if n > 0 {
        let m = (n - 1) as nat;
        lemma_value_upto_bounds(s, m);
        lemma_base_pow_pos(m);
        let l = limb(s, n - 1);
        assert(0 <= l < limb_base());
        assert(0 <= value_upto(s, m) + l * base_pow(m) < limb_base() * base_pow(m)) by (nonlinear_arith)
            requires
                0 <= value_upto(s, m) < base_pow(m),
                0 <= l < limb_base(),
        ;
    }
}

proof fn lemma_value_upto_same(s: Seq<u64>, t: Seq<u64>, n: nat)
    requires
        forall|i: int| 0 <= i < n ==> limb(s, i) == limb(t, i),
    ensures
        value_upto(s, n) == value_upto(t, n),
    decreases n,
{
    if n > 0 {
        lemma_value_upto_same(s, t, (n - 1) as nat);
    }
}

proof fn lemma_value_upto_beyond(s: Seq<u64>, n: nat)
    requires
        n >= s.len(),
    ensures
        value_upto(s, n) == value(s),
    decreases n,
{
    if n > s.len() {
        lemma_value_upto_beyond(s, (n - 1) as nat);
    }
}

proof fn lemma_value_push(s: Seq<u64>, x: u64)
    ensures
        value(s.push(x)) == value(s) + x * base_pow(s.len()),
{
    lemma_value_upto_same(s, s.push(x), s.len());
}

/// Limbs equal from position `k + 1` up and smaller at `k` give a smaller value.
proof fn lemma_smaller_at(a: Seq<u64>, b: Seq<u64>, k: nat, n: nat)
    requires
        k < n,
        limb(a, k as int) < limb(b, k as int),
        forall|j: int| k < j < n ==> limb(a, j) == limb(b, j),
    ensures
        value_upto(a, n) < value_upto(b, n),
    decreases n,
{
    if n == k + 1 {
        lemma_value_upto_bounds(a, k);
        lemma_value_upto_bounds(b, k);
        let la = limb(a, k as int);
        let lb = limb(b, k as int);
        assert(value_upto(a, k) + la * base_pow(k) < value_upto(b, k) + lb * base_pow(k)) by (nonlinear_arith)
            requires
                0 <= value_upto(a, k) < base_pow(k),
                0 <= value_upto(b, k),
                la < lb,
        ;
    } else {
        lemma_smaller_at(a, b, k, (n - 1) as nat);
    }
}

/// The number `x`.
pub fn from_u64(x: u64) -> (r: Vec<u64>)
    ensures
        value(r@) == x,
        r@.len() == 1,
{
    let mut r: Vec<u64> = Vec::new();
    r.push(x);
    proof {
        assert(value_upto(r@, 0) == 0);
        assert(base_pow(0) == 1);
    }
    r
}

/// The sum `a + b`.
pub fn add_nat(a: &Vec<u64>, b: &Vec<u64>) -> (r: Vec<u64>)
    requires
        a@.len() < usize::MAX,
        b@.len() < usize::MAX,
    ensures
        value(r@) == value(a@) + value(b@),
        r@.len() <= if a@.len() < b@.len() { b@.len() + 1 } else { a@.len() + 1 },
{
    let n: usize = if a.len() < b.len() { b.len() } else { a.len() };
    let mut r: Vec<u64> = Vec::new();
    let mut carry: u64 = 0;
    let mut i: usize = 0;
    while i < n
        invariant
            n == (if a@.len() < b@.len() { b@.len() } else { a@.len() }),
            0 <= i <= n,
            r@.len() == i,
            carry <= 1,
            value(r@) + carry * base_pow(i as nat) == value_upto(a@, i as nat) + value_upto(b@, i as nat),
        decreases n - i,
    {
        let x: u64 = if i < a.len() { a[i] } else { 0 };
        let y: u64 = if i < b.len() { b[i] } else { 0 };
        let t: u128 = (x as u128) + (y as u128) + (carry as u128);
        let lo: u64 = (t % 0x1_0000_0000_0000_0000) as u64;
        let hi: u64 = (t / 0x1_0000_0000_0000_0000) as u64;
        proof {
            lemma_value_push(r@, lo);
            let p = base_pow(i as nat);
            assert(lo + hi * limb_base() == x + y + carry);
            assert(base_pow((i + 1) as nat) == limb_base() * p);
            assert(value(r@) + lo * p + hi * (limb_base() * p) == value(r@) + carry * p + (x + y) * p) by (nonlinear_arith)
                requires
                    lo + hi * limb_base() == x + y + carry,
            ;
            assert(limb(a@, i as int) == x);
            assert(limb(b@, i as int) == y);
            assert(value_upto(a@, (i + 1) as nat) == value_upto(a@, i as nat) + x * p);
            assert(value_upto(b@, (i + 1) as nat) == value_upto(b@, i as nat) + y * p);
            assert((x + y) * p == x * p + y * p) by (nonlinear_arith);
        }
        r.push(lo);
        carry = hi;
        i = i + 1;
    }
    proof {
        lemma_value_push(r@, carry);
        lemma_value_upto_beyond(a@, n as nat);
        lemma_value_upto_beyond(b@, n as nat);
    }
    r.push(carry);
    r
}

/// The product `a * m`.
pub fn mul_small(a: &Vec<u64>, m: u64) -> (r: Vec<u64>)
    requires
        a@.len() < usize::MAX,
    ensures
        value(r@) == value(a@) * m,
        r@.len() == a@.len() + 1,
{
    let n: usize = a.len();
    let mut r: Vec<u64> = Vec::new();
    let mut carry: u64 = 0;
    let mut i: usize = 0;
    while i < n
        invariant
            n == a@.len(),
            0 <= i <= n,
            r@.len() == i,
            value(r@) + carry * base_pow(i as nat) == value_upto(a@, i as nat) * m,
        decreases n - i,
    {
        let x: u64 = a[i];
        assert((x as u128) * (m as u128) <= 0xFFFF_FFFF_FFFF_FFFE_0000_0000_0000_0001) by (nonlinear_arith)
            requires
                x <= 0xFFFF_FFFF_FFFF_FFFF,
                m <= 0xFFFF_FFFF_FFFF_FFFF,
        ;
        let t: u128 = (x as u128) * (m as u128) + (carry as u128);
        let lo: u64 = (t % 0x1_0000_0000_0000_0000) as u64;
        let hi: u64 = (t / 0x1_0000_0000_0000_0000) as u64;
        proof {
            lemma_value_push(r@, lo);
            let p = base_pow(i as nat);
            assert(limb(a@, i as int) == x);
            assert(lo + hi * limb_base() == x * m + carry);
            assert(base_pow((i + 1) as nat) == limb_base() * p);
            assert(value(r@) + lo * p + hi * (limb_base() * p) == value(r@) + carry * p + (x * m) * p) by (nonlinear_arith)
                requires
                    lo + hi * limb_base() == x * m + carry,
            ;
            assert(value_upto(a@, (i + 1) as nat) * m == value_upto(a@, i as nat) * m + (x * m) * p) by (nonlinear_arith)
                requires
                    value_upto(a@, (i + 1) as nat) == value_upto(a@, i as nat) + x * p,
            ;
        }
        r.push(lo);
        carry = hi;
        i = i + 1;
    }
    proof {
        lemma_value_push(r@, carry);
    }
    r.push(carry);
    r
}

/// Compares `a` with `b`: -1 when smaller, 0 when equal, 1 when larger.
pub fn compare(a: &Vec<u64>, b: &Vec<u64>) -> (r: i8)
    ensures
        r == -1 <==> value(a@) < value(b@),
        r == 0 <==> value(a@) == value(b@),
        r == 1 <==> value(a@) > value(b@),
{
    let n: usize = if a.len() < b.len() { b.len() } else { a.len() };
    let mut i: usize = n;
    while i > 0
        invariant
            n == (if a@.len() < b@.len() { b@.len() } else { a@.len() }),
            0 <= i <= n,
            forall|j: int| i <= j < n ==> limb(a@, j) == limb(b@, j),
        decreases i,
    {
        let k: usize = i - 1;
        let x: u64 = if k < a.len() { a[k] } else { 0 };
        let y: u64 = if k < b.len() { b[k] } else { 0 };
        if x != y {
            proof {
                lemma_value_upto_beyond(a@, n as nat);
                lemma_value_upto_beyond(b@, n as nat);
                if x < y {
                    lemma_smaller_at(a@, b@, k as nat, n as nat);
                } else {
                    lemma_smaller_at(b@, a@, k as nat, n as nat);
                }
            }
            return if x < y { -1 } else { 1 };
        }
        i = k;
    }
    proof {
        lemma_value_upto_same(a@, b@, n as nat);
        lemma_value_upto_beyond(a@, n as nat);
        lemma_value_upto_beyond(b@, n as nat);
    }
    0
}

/// The product of a list of factors.
pub open spec fn product(fs: Seq<u64>) -> int
    decreases fs.len(),
{
    if fs.len() == 0 { 1 } else { product(fs.drop_last()) * fs.last() }
}

/// The product `a * product(fs)`.
pub fn mul_factors(a: &Vec<u64>, fs: &Vec<u64>) -> (r: Vec<u64>)
    requires
        a@.len() + fs@.len() < 1000,
    ensures
        value(r@) == value(a@) * product(fs@),
        r@.len() == a@.len() + fs@.len(),
{
    let mut r: Vec<u64> = a.clone();
    let mut k: usize = 0;
    proof {
        assert(r@ == a@);
        assert(fs@.take(0).len() == 0);
    }
    while k < fs.len()
        invariant
            0 <= k <= fs@.len(),
            a@.len() + fs@.len() < 1000,
            r@.len() == a@.len() + k,
            value(r@) == value(a@) * product(fs@.take(k as int)),
        decreases fs@.len() - k,
    {
        let f: u64 = fs[k];
        r = mul_small(&r, f);
        proof {
            assert(fs@.take(k + 1).drop_last() == fs@.take(k as int));
            assert(fs@.take(k + 1).last() == f);
            let pk = product(fs@.take(k as int));
            assert(value(a@) * pk * f == value(a@) * (pk * f)) by (nonlinear_arith);
        }
        k = k + 1;
    }
    proof {
        assert(fs@.take(fs@.len() as int) == fs@);
    }
    r
}

} // verus!
