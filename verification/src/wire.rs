//! Wire labels: fixed-width cryptographic values carrying an encoded truth
//! value in a modulus q.
//!
//! A label is a vector of base-q digits, as many as fit in a 128-bit block.
//! For a fixed modulus the labels of one wire form an arithmetic progression
//! under the garbler's secret offset ("delta"): the label for value v is
//! `zero + v * delta`, computed digit-wise modulo q. The low-order digit is
//! the label's "color", the only part the evaluator may interpret.

use vstd::prelude::*;
use vstd::arithmetic::power::pow;
use crate::crypto::{hash_block, hash_block_of};

verus! {

/// The largest value a 128-bit block can hold.
pub open spec fn u128_max() -> int {
    0xffffffffffffffffffffffffffffffff
}

/// n is the canonical digit count for modulus q: the most base-q digits whose
/// combinations can all be packed into one 128-bit block.
pub open spec fn is_mod_len(q: int, n: nat) -> bool {
    pow(q, n) <= u128_max() && u128_max() < pow(q, n + 1)
}

/// Every digit is a residue modulo q.
pub open spec fn wf_digits(ds: Seq<u16>, q: int) -> bool {
    forall|i: int| 0 <= i < ds.len() ==> (#[trigger] ds[i]) < q
}

/// The mathematical content of a wire label.
pub ghost struct WireView {
    pub q: int,
    pub ds: Seq<u16>,
}

/// A wire label: a modulus and a base-q digit vector of canonical length.
pub struct Wire {
    q: u16,
    ds: Vec<u16>,
}

impl View for Wire {
    type V = WireView;

    closed spec fn view(&self) -> WireView {
        WireView { q: self.q as int, ds: self.ds@ }
    }
}

/// A well-formed label: modulus at least 2, canonical digit count, digits
/// reduced modulo q.
pub open spec fn wire_wf(w: WireView) -> bool {
    &&& 2 <= w.q <= 0xffff
    &&& is_mod_len(w.q, w.ds.len())
    &&& wf_digits(w.ds, w.q)
}

/// Digit-wise sum modulo q.
pub open spec fn add_digits(a: Seq<u16>, b: Seq<u16>, q: int) -> Seq<u16> {
    Seq::new(a.len(), |i: int| ((a[i] + b[i]) % q) as u16)
}

/// Digit-wise difference modulo q.
pub open spec fn sub_digits(a: Seq<u16>, b: Seq<u16>, q: int) -> Seq<u16> {
    Seq::new(a.len(), |i: int| ((a[i] + q - b[i]) % q) as u16)
}

/// Digit-wise negation modulo q.
pub open spec fn negate_digits(a: Seq<u16>, q: int) -> Seq<u16> {
    Seq::new(a.len(), |i: int| ((q - a[i]) % q) as u16)
}

/// Digit-wise scalar multiple modulo q.
pub open spec fn cmul_digits(a: Seq<u16>, c: int, q: int) -> Seq<u16> {
    Seq::new(a.len(), |i: int| ((a[i] * c) % q) as u16)
}

/// The all-zero digit vector.
pub open spec fn zero_digits(n: nat) -> Seq<u16> {
    Seq::new(n, |i: int| 0u16)
}

/// The label that encodes value v on a wire with zero-label z and offset d:
/// `z + v * d`, digit-wise modulo q.
pub open spec fn enc_digits(z: Seq<u16>, d: Seq<u16>, v: int, q: int) -> Seq<u16> {
    add_digits(z, cmul_digits(d, v, q), q)
}

/// The integer a base-q digit vector packs to, least significant digit first.
pub open spec fn val_of(ds: Seq<u16>, q: int) -> int
    decreases ds.len(),
{
    if ds.len() == 0 {
        0
    } else {
        ds[0] + q * val_of(ds.drop_first(), q)
    }
}

/// The low-order digit of a label.
pub open spec fn color_of(w: WireView) -> u16 {
    if w.ds.len() > 0 {
        w.ds[0]
    } else {
        0
    }
}

/// Powers are monotone in the base.
proof fn lemma_pow_base_mono(a: int, b: int, e: nat)
    requires
        1 <= a <= b,
    ensures
        pow(a, e) <= pow(b, e),
    decreases e,
{
    reveal(vstd::arithmetic::power::pow);
    if e > 0 {
        lemma_pow_base_mono(a, b, (e - 1) as nat);
        vstd::arithmetic::power::lemma_pow_positive(a, (e - 1) as nat);
        assert(a * pow(a, (e - 1) as nat) <= b * pow(b, (e - 1) as nat)) by (nonlinear_arith)
            requires
                1 <= a <= b,
                0 < pow(a, (e - 1) as nat) <= pow(b, (e - 1) as nat),
        ;
    }
}

proof fn lemma_pow2_128()
    ensures
        pow(2, 128) == u128_max() + 1,
{
    vstd::arithmetic::power2::lemma2_to64();
    vstd::arithmetic::power2::lemma2_to64_rest();
    assert(vstd::arithmetic::power2::pow2(64) == pow(2, 64)) by {
        vstd::arithmetic::power2::lemma_pow2(64);
    }
    assert(pow(2, 128) == pow(2, 64) * pow(2, 64)) by {
        vstd::arithmetic::power::lemma_pow_adds(2, 64, 64);
    }
}

/// The canonical digit count exists and is unique for each modulus.
pub proof fn lemma_mod_len_unique(q: int, n1: nat, n2: nat)
    requires
        q >= 2,
        is_mod_len(q, n1),
        is_mod_len(q, n2),
    ensures
        n1 == n2,
{
    if n1 < n2 {
        vstd::arithmetic::power::lemma_pow_increases(q as nat, n1 + 1, n2);
    }
    if n2 < n1 {
        vstd::arithmetic::power::lemma_pow_increases(q as nat, n2 + 1, n1);
    }
}

/// A well-formed label has at least one digit.
pub proof fn lemma_wf_len_pos(w: WireView)
    requires
        wire_wf(w),
    ensures
        w.ds.len() >= 1,
{
    if w.ds.len() == 0 {
        vstd::arithmetic::power::lemma_pow0(w.q);
        vstd::arithmetic::power::lemma_pow1(w.q);
    }
}

/// A well-formed digit vector packs to a value below q^len.
pub proof fn lemma_val_bound(ds: Seq<u16>, q: int)
    requires
        q >= 1,
        wf_digits(ds, q),
    ensures
        0 <= val_of(ds, q) < pow(q, ds.len()),
    decreases ds.len(),
{
    if ds.len() == 0 {
        vstd::arithmetic::power::lemma_pow0(q);
    } else {
        assert(wf_digits(ds.drop_first(), q)) by {
            assert(forall|i: int|
                0 <= i < ds.drop_first().len() ==> (#[trigger] ds.drop_first()[i]) == ds[i + 1]);
        }
        lemma_val_bound(ds.drop_first(), q);
        let rest = val_of(ds.drop_first(), q);
        let p1 = pow(q, (ds.len() - 1) as nat);
        assert(pow(q, ds.len()) == q * p1) by {
            vstd::arithmetic::power::lemma_pow_adds(q, 1, (ds.len() - 1) as nat);
            vstd::arithmetic::power::lemma_pow1(q);
        }
        assert(0 <= q * rest && ds[0] + q * rest < q * p1) by (nonlinear_arith)
            requires
                q >= 1,
                0 <= rest <= p1 - 1,
                0 <= ds[0] < q,
        ;
    }
}

/// Digit vectors of the same length and value are equal.
pub proof fn lemma_val_injective(a: Seq<u16>, b: Seq<u16>, q: int)
    requires
        q >= 1,
        a.len() == b.len(),
        wf_digits(a, q),
        wf_digits(b, q),
        val_of(a, q) == val_of(b, q),
    ensures
        a =~= b,
    decreases a.len(),
{
    if a.len() > 0 {
        assert(wf_digits(a.drop_first(), q) && wf_digits(b.drop_first(), q)) by {
            assert(forall|i: int|
                0 <= i < a.drop_first().len() ==> (#[trigger] a.drop_first()[i]) == a[i + 1]);
            assert(forall|i: int|
                0 <= i < b.drop_first().len() ==> (#[trigger] b.drop_first()[i]) == b[i + 1]);
        }
        let ra = val_of(a.drop_first(), q);
        let rb = val_of(b.drop_first(), q);
        lemma_val_bound(a.drop_first(), q);
        lemma_val_bound(b.drop_first(), q);
        assert(val_of(a, q) == ra * q + a[0]) by (nonlinear_arith)
            requires
                val_of(a, q) == a[0] + q * ra,
        ;
        assert(val_of(b, q) == rb * q + b[0]) by (nonlinear_arith)
            requires
                val_of(b, q) == b[0] + q * rb,
        ;
        assert(a[0] == b[0] && ra == rb) by {
            vstd::arithmetic::div_mod::lemma_fundamental_div_mod_converse(
                val_of(a, q),
                q,
                ra,
                a[0] as int,
            );
            vstd::arithmetic::div_mod::lemma_fundamental_div_mod_converse(
                val_of(b, q),
                q,
                rb,
                b[0] as int,
            );
        }
        lemma_val_injective(a.drop_first(), b.drop_first(), q);
        assert(a =~= seq![a[0]] + a.drop_first());
        assert(b =~= seq![b[0]] + b.drop_first());
    }
}

/// val_of over push: appending a digit adds digit * q^len.
pub proof fn lemma_val_push(ds: Seq<u16>, d: u16, q: int)
    requires
        q >= 1,
    ensures
        val_of(ds.push(d), q) == val_of(ds, q) + pow(q, ds.len()) * d,
    decreases ds.len(),
{
    vstd::arithmetic::power::lemma_pow_positive(q, ds.len());
    if ds.len() == 0 {
        assert(ds.push(d) =~= seq![d]);
        assert(seq![d].drop_first() =~= Seq::<u16>::empty());
        assert(val_of(Seq::<u16>::empty(), q) == 0);
        assert(val_of(seq![d], q) == d + q * 0);
        vstd::arithmetic::power::lemma_pow0(q);
    } else {
        assert(ds.push(d).drop_first() =~= ds.drop_first().push(d));
        assert(ds.push(d)[0] == ds[0]);
        assert(val_of(ds.push(d), q) == ds[0] + q * val_of(ds.drop_first().push(d), q));
        lemma_val_push(ds.drop_first(), d, q);
        let p1 = pow(q, (ds.len() - 1) as nat);
        assert(pow(q, ds.len()) == q * p1) by {
            vstd::arithmetic::power::lemma_pow_adds(q, 1, (ds.len() - 1) as nat);
            vstd::arithmetic::power::lemma_pow1(q);
        }
        assert(q * (val_of(ds.drop_first(), q) + p1 * d) == q * val_of(ds.drop_first(), q) + (q
            * p1) * d) by (nonlinear_arith);
        assert(val_of(ds.push(d), q) == ds[0] + q * val_of(ds.drop_first(), q) + (q * p1) * d);
        assert(val_of(ds, q) == ds[0] + q * val_of(ds.drop_first(), q));
        assert(pow(q, ds.len()) * d == (q * p1) * d) by (nonlinear_arith)
            requires
                pow(q, ds.len()) == q * p1,
        ;
    }
}

/// The all-zero digit vector packs to zero.
pub proof fn lemma_zero_val(ds: Seq<u16>, q: int)
    requires
        q >= 1,
        forall|i: int| 0 <= i < ds.len() ==> (#[trigger] ds[i]) == 0,
    ensures
        val_of(ds, q) == 0,
    decreases ds.len(),
{
    if ds.len() > 0 {
        assert(forall|i: int|
            0 <= i < ds.drop_first().len() ==> (#[trigger] ds.drop_first()[i]) == ds[i + 1]);
        lemma_zero_val(ds.drop_first(), q);
    }
}

/// The canonical digit count for modulus q.
pub fn mod_digits(q: u16) -> (n: usize)
    requires
        q >= 2,
    ensures
        is_mod_len(q as int, n as nat),
        1 <= n <= 128,
{
    let mut n: usize = 0;
    let mut acc: u128 = 1;
    proof {
        vstd::arithmetic::power::lemma_pow0(q as int);
    }
    while acc <= u128::MAX / (q as u128)
        invariant
            q >= 2,
            acc as int == pow(q as int, n as nat),
            acc >= 1,
            n <= 128,
        decreases u128::MAX - acc,
    {
        proof {
            lemma_mul_div_max(acc as int, q as int);
            if n >= 128 {
                lemma_pow2_128();
                lemma_pow_base_mono(2, q as int, 128);
                vstd::arithmetic::div_mod::lemma_div_nonincreasing(u128_max(), q as int);
            }
            vstd::arithmetic::power::lemma_pow_adds(q as int, n as nat, 1);
            vstd::arithmetic::power::lemma_pow1(q as int);
            assert(pow(q as int, (n + 1) as nat) == pow(q as int, n as nat) * q);
        }
        acc = acc * (q as u128);
        n = n + 1;
    }
    proof {
        lemma_exit_bound(acc as int, q as int, n as nat);
        if n == 0 {
            vstd::arithmetic::power::lemma_pow1(q as int);
            assert(u128_max() < pow(q as int, 1));
            assert(false);
        }
    }
    n
}

proof fn lemma_mul_div_max(acc: int, q: int)
    requires
        acc >= 1,
        q >= 2,
        acc <= u128_max() / q,
    ensures
        acc * q <= u128_max(),
        acc * q >= 2 * acc,
{
    assert(acc * q <= (u128_max() / q) * q) by (nonlinear_arith)
        requires
            q >= 2,
            acc <= u128_max() / q,
    ;
    assert((u128_max() / q) * q <= u128_max()) by {
        vstd::arithmetic::div_mod::lemma_fundamental_div_mod(u128_max(), q);
        vstd::arithmetic::div_mod::lemma_mod_bound(u128_max(), q);
        assert(q * (u128_max() / q) == (u128_max() / q) * q) by (nonlinear_arith);
    }
    assert(acc * q >= 2 * acc) by (nonlinear_arith)
        requires
            acc >= 1,
            q >= 2,
    ;
}

proof fn lemma_exit_bound(acc: int, q: int, n: nat)
    requires
        q >= 2,
        acc == pow(q, n),
        1 <= acc <= u128_max(),
        acc > u128_max() / q,
    ensures
        is_mod_len(q, n),
{
    assert(pow(q, n + 1) == acc * q) by {
        vstd::arithmetic::power::lemma_pow_adds(q, n, 1);
        vstd::arithmetic::power::lemma_pow1(q);
    }
    vstd::arithmetic::div_mod::lemma_fundamental_div_mod(u128_max(), q);
    vstd::arithmetic::div_mod::lemma_mod_bound(u128_max(), q);
    assert(q * (u128_max() / q) == (u128_max() / q) * q) by (nonlinear_arith);
    assert(acc * q >= (u128_max() / q + 1) * q) by (nonlinear_arith)
        requires
            q >= 2,
            acc >= u128_max() / q + 1,
    ;
    assert((u128_max() / q + 1) * q == (u128_max() / q) * q + q) by (nonlinear_arith);
}

impl Wire {
    /// The well-formedness of a label, stated over its view.
    pub open spec fn wf(&self) -> bool {
        wire_wf(self@)
    }

    /// The modulus: the size of this wire's truth domain.
    pub fn modulus(&self) -> (q: u16)
        ensures
            q as int == self@.q,
    {
        self.q
    }

    /// The label for value 0 with no randomness: the all-zero digit vector.
    pub fn zero(q: u16) -> (r: Wire)
        requires
            q >= 2,
        ensures
            r.wf(),
            r@.q == q as int,
            r@.ds == zero_digits(r@.ds.len()),
    {
        let n = mod_digits(q);
        let mut ds: Vec<u16> = Vec::new();
        let mut i: usize = 0;
        while i < n
            invariant
                i <= n,
                ds@.len() == i,
                forall|j: int| 0 <= j < i ==> (#[trigger] ds@[j]) == 0,
            decreases n - i,
        {
            ds.push(0);
            i = i + 1;
        }
        proof {
            assert(ds@ =~= zero_digits(n as nat));
        }
        Wire { q, ds }
    }

    /// Unpack a 128-bit block into a label: the canonical number of base-q
    /// digits of the block's value, low digit first.
    pub fn from_block(x: u128, q: u16) -> (r: Wire)
        requires
            q >= 2,
        ensures
            r.wf(),
            r@.q == q as int,
            val_of(r@.ds, q as int) == x as int % pow(q as int, r@.ds.len()),
    {
        let n = mod_digits(q);
        let mut ds: Vec<u16> = Vec::new();
        let mut v: u128 = x;
        let mut i: usize = 0;
        proof {
            vstd::arithmetic::power::lemma_pow0(q as int);
        }
        while i < n
            invariant
                i <= n,
                q >= 2,
                ds@.len() == i,
                wf_digits(ds@, q as int),
                val_of(ds@, q as int) + pow(q as int, i as nat) * (v as int) == x as int,
            decreases n - i,
        {
            proof {
                lemma_unpack_step(ds@, q as int, v as int, i as nat);
            }
            ds.push((v % (q as u128)) as u16);
            v = v / (q as u128);
            i = i + 1;
        }
        proof {
            lemma_val_bound(ds@, q as int);
            vstd::arithmetic::power::lemma_pow_positive(q as int, n as nat);
            let p = pow(q as int, n as nat);
            assert(x as int == (v as int) * p + val_of(ds@, q as int)) by (nonlinear_arith)
                requires
                    val_of(ds@, q as int) + p * (v as int) == x as int,
            ;
            vstd::arithmetic::div_mod::lemma_fundamental_div_mod_converse(
                x as int,
                p,
                v as int,
                val_of(ds@, q as int),
            );
        }
        Wire { q, ds }
    }

    /// Pack a label into a 128-bit block holding its digit-vector value.
    pub fn as_block(&self) -> (r: u128)
        requires
            self.wf(),
        ensures
            r as int == val_of(self@.ds, self@.q),
    {
        let n = self.ds.len();
        let mut acc: u128 = 0;
        let mut i: usize = n;
        proof {
            assert(self@.ds.skip(n as int) =~= Seq::<u16>::empty());
        }
        while i > 0
            invariant
                i <= n,
                n == self@.ds.len(),
                self.wf(),
                acc as int == val_of(self@.ds.skip(i as int), self@.q),
            decreases i,
        {
            i = i - 1;
            proof {
                lemma_pack_step(self@.ds, self@.q, i as nat);
                lemma_skip_val_bound(self@.ds, self@.q, i as nat);
                assert(self@.q * (acc as int) == (acc as int) * self@.q) by (nonlinear_arith);
            }
            acc = acc * (self.q as u128) + (self.ds[i] as u128);
        }
        proof {
            assert(self@.ds.skip(0) =~= self@.ds);
        }
        acc
    }

    /// The color: the label's low-order digit, the only part of a label the
    /// evaluator interprets directly.
    pub fn color(&self) -> (c: u16)
        requires
            self.wf(),
        ensures
            c == color_of(self@),
            c < self@.q,
    {
        proof {
            lemma_wf_len_pos(self@);
        }
        self.ds[0]
    }

    /// Digit-wise sum of two labels of one modulus.
    pub fn plus(&self, other: &Wire) -> (r: Wire)
        requires
            self.wf(),
            other.wf(),
            self@.q == other@.q,
        ensures
            r.wf(),
            r@.q == self@.q,
            r@.ds == add_digits(self@.ds, other@.ds, self@.q),
    {
        proof {
            lemma_mod_len_unique(self@.q, self@.ds.len(), other@.ds.len());
        }
        let n = self.ds.len();
        let mut ds: Vec<u16> = Vec::new();
        let mut i: usize = 0;
        while i < n
            invariant
                i <= n,
                n == self@.ds.len() == other@.ds.len(),
                self.wf(),
                other.wf(),
                self@.q == other@.q,
                ds@.len() == i,
                forall|j: int|
                    0 <= j < i ==> (#[trigger] ds@[j]) == add_digits(
                        self@.ds,
                        other@.ds,
                        self@.q,
                    )[j],
            decreases n - i,
        {
            ds.push(((self.ds[i] as u32 + other.ds[i] as u32) % (self.q as u32)) as u16);
            i = i + 1;
        }
        proof {
            assert(ds@ =~= add_digits(self@.ds, other@.ds, self@.q));
        }
        Wire { q: self.q, ds }
    }

    /// Digit-wise difference of two labels of one modulus.
    pub fn minus(&self, other: &Wire) -> (r: Wire)
        requires
            self.wf(),
            other.wf(),
            self@.q == other@.q,
        ensures
            r.wf(),
            r@.q == self@.q,
            r@.ds == sub_digits(self@.ds, other@.ds, self@.q),
    {
        proof {
            lemma_mod_len_unique(self@.q, self@.ds.len(), other@.ds.len());
        }
        let n = self.ds.len();
        let mut ds: Vec<u16> = Vec::new();
        let mut i: usize = 0;
        while i < n
            invariant
                i <= n,
                n == self@.ds.len() == other@.ds.len(),
                self.wf(),
                other.wf(),
                self@.q == other@.q,
                ds@.len() == i,
                forall|j: int|
                    0 <= j < i ==> (#[trigger] ds@[j]) == sub_digits(
                        self@.ds,
                        other@.ds,
                        self@.q,
                    )[j],
            decreases n - i,
        {
            ds.push(
                ((self.ds[i] as u32 + self.q as u32 - other.ds[i] as u32) % (self.q as u32)) as u16,
            );
            i = i + 1;
        }
        proof {
            assert(ds@ =~= sub_digits(self@.ds, other@.ds, self@.q));
        }
        Wire { q: self.q, ds }
    }

    /// Digit-wise negation of a label.
    pub fn negate(&self) -> (r: Wire)
        requires
            self.wf(),
        ensures
            r.wf(),
            r@.q == self@.q,
            r@.ds == negate_digits(self@.ds, self@.q),
    {
        let n = self.ds.len();
        let mut ds: Vec<u16> = Vec::new();
        let mut i: usize = 0;
        while i < n
            invariant
                i <= n,
                n == self@.ds.len(),
                self.wf(),
                ds@.len() == i,
                forall|j: int|
                    0 <= j < i ==> (#[trigger] ds@[j]) == negate_digits(self@.ds, self@.q)[j],
            decreases n - i,
        {
            ds.push(((self.q as u32 - self.ds[i] as u32) % (self.q as u32)) as u16);
            i = i + 1;
        }
        proof {
            assert(ds@ =~= negate_digits(self@.ds, self@.q));
        }
        Wire { q: self.q, ds }
    }

    /// Digit-wise scalar multiple of a label.
    pub fn cmul(&self, c: u16) -> (r: Wire)
        requires
            self.wf(),
        ensures
            r.wf(),
            r@.q == self@.q,
            r@.ds == cmul_digits(self@.ds, c as int, self@.q),
    {
        let n = self.ds.len();
        let mut ds: Vec<u16> = Vec::new();
        let mut i: usize = 0;
        while i < n
            invariant
                i <= n,
                n == self@.ds.len(),
                self.wf(),
                ds@.len() == i,
                forall|j: int|
                    0 <= j < i ==> (#[trigger] ds@[j]) == cmul_digits(self@.ds, c as int, self@.q)[j],
            decreases n - i,
        {
            proof {
                assert(self@.ds[i as int] * c < 0x100000000) by (nonlinear_arith)
                    requires
                        self@.ds[i as int] < 0x10000,
                        c < 0x10000,
                ;
            }
            ds.push(((self.ds[i] as u32 * c as u32) % (self.q as u32)) as u16);
            i = i + 1;
        }
        proof {
            assert(ds@ =~= cmul_digits(self@.ds, c as int, self@.q));
        }
        Wire { q: self.q, ds }
    }

    /// The same label with its color forced to 1; offsets ("deltas") carry
    /// color 1 so that colors advance by the encoded value.
    pub fn with_color_one(self) -> (r: Wire)
        requires
            self.wf(),
        ensures
            r.wf(),
            r@.q == self@.q,
            r@.ds == self@.ds.update(0, 1u16),
            color_of(r@) == 1,
    {
        proof {
            lemma_wf_len_pos(self@);
        }
        let Wire { q, mut ds } = self;
        ds.set(0, 1);
        Wire { q, ds }
    }

    /// The domain-separated hash of a label under a tweak, used for
    /// garbled-table rows, output decoding and commitments.
    pub fn hash(&self, tweak: u128) -> (r: u128)
        requires
            self.wf(),
        ensures
            r == hash_block_of(val_of(self@.ds, self@.q) as u128, tweak),
    {
        let b = self.as_block();
        hash_block(b, tweak)
    }

    /// Check well-formedness: modulus at least 2, canonical digit count,
    /// digits reduced.
    pub fn wf_check(&self) -> (b: bool)
        ensures
            b == self.wf(),
    {
        if self.q < 2 {
            return false;
        }
        let n = mod_digits(self.q);
        if self.ds.len() != n {
            proof {
                if is_mod_len(self@.q, self@.ds.len()) {
                    lemma_mod_len_unique(self@.q, self@.ds.len(), n as nat);
                }
            }
            return false;
        }
        let mut i: usize = 0;
        while i < n
            invariant
                i <= n,
                n == self@.ds.len(),
                self@.q >= 2,
                forall|j: int| 0 <= j < i ==> (#[trigger] self@.ds[j]) < self@.q,
            decreases n - i,
        {
            if self.ds[i] >= self.q {
                return false;
            }
            i = i + 1;
        }
        true
    }

    /// Structural equality of labels.
    pub fn wire_eq(&self, other: &Wire) -> (b: bool)
        ensures
            b <==> self@ == other@,
    {
        if self.q != other.q {
            return false;
        }
        if self.ds.len() != other.ds.len() {
            proof {
                assert(self@.ds.len() != other@.ds.len());
            }
            return false;
        }
        let n = self.ds.len();
        let mut i: usize = 0;
        while i < n
            invariant
                i <= n,
                n == self@.ds.len() == other@.ds.len(),
                self@.q == other@.q,
                forall|j: int| 0 <= j < i ==> self@.ds[j] == other@.ds[j],
            decreases n - i,
        {
            if self.ds[i] != other.ds[i] {
                return false;
            }
            i = i + 1;
        }
        proof {
            assert(self@.ds =~= other@.ds);
        }
        true
    }

    /// An explicit copy of a label.
    pub fn duplicate(&self) -> (r: Wire)
        ensures
            r@ == self@,
    {
        let n = self.ds.len();
        let mut ds: Vec<u16> = Vec::new();
        let mut i: usize = 0;
        while i < n
            invariant
                i <= n,
                n == self@.ds.len(),
                ds@.len() == i,
                forall|j: int| 0 <= j < i ==> (#[trigger] ds@[j]) == self@.ds[j],
            decreases n - i,
        {
            ds.push(self.ds[i]);
            i = i + 1;
        }
        proof {
            assert(ds@ =~= self@.ds);
        }
        Wire { q: self.q, ds }
    }
}

proof fn lemma_unpack_step(ds: Seq<u16>, q: int, v: int, i: nat)
    requires
        2 <= q <= 0xffff,
        0 <= v,
        ds.len() == i,
    ensures
        val_of(ds.push((v % q) as u16), q) + pow(q, i + 1) * (v / q) == val_of(ds, q) + pow(q, i)
            * v,
        wf_digits(ds, q) ==> wf_digits(ds.push((v % q) as u16), q),
{
    vstd::arithmetic::power::lemma_pow_positive(q, i);
    let p = pow(q, i);
    assert(pow(q, i + 1) == p * q) by {
        vstd::arithmetic::power::lemma_pow_adds(q, i, 1);
        vstd::arithmetic::power::lemma_pow1(q);
    }
    lemma_val_push(ds, (v % q) as u16, q);
    vstd::arithmetic::div_mod::lemma_fundamental_div_mod(v, q);
    vstd::arithmetic::div_mod::lemma_mod_bound(v, q);
    assert(p * v == p * (v % q) + (p * q) * (v / q)) by (nonlinear_arith)
        requires
            v == q * (v / q) + v % q,
    ;
    assert(val_of(ds.push((v % q) as u16), q) == val_of(ds, q) + p * (v % q));
    assert(pow(q, i + 1) * (v / q) == (p * q) * (v / q)) by (nonlinear_arith)
        requires
            pow(q, i + 1) == p * q,
    ;
    let pushed = ds.push((v % q) as u16);
    if wf_digits(ds, q) {
        assert(forall|j: int| 0 <= j < pushed.len() ==> (#[trigger] pushed[j]) < q) by {
            assert(forall|j: int| 0 <= j < ds.len() ==> pushed[j] == ds[j]);
            assert(pushed[ds.len() as int] < q);
        }
    }
}

proof fn lemma_pack_step(ds: Seq<u16>, q: int, i: nat)
    requires
        q >= 1,
        i < ds.len(),
    ensures
        val_of(ds.skip(i as int), q) == ds[i as int] + q * val_of(ds.skip(i as int + 1), q),
{
    assert(ds.skip(i as int).drop_first() =~= ds.skip(i as int + 1));
}

/// Packing the tail of a well-formed label stays within the block bound.
proof fn lemma_skip_val_bound(ds: Seq<u16>, q: int, i: nat)
    requires
        q >= 2,
        i < ds.len(),
        is_mod_len(q, ds.len()),
        wf_digits(ds, q),
    ensures
        ds[i as int] + q * val_of(ds.skip(i as int + 1), q) <= u128_max(),
        0 <= val_of(ds.skip(i as int + 1), q),
{
    let tail = ds.skip(i as int + 1);
    assert(wf_digits(tail, q)) by {
        assert(forall|j: int| 0 <= j < tail.len() ==> (#[trigger] tail[j]) == ds[i + 1 + j]);
    }
    lemma_val_bound(tail, q);
    let m = tail.len();
    let p = pow(q, m);
    assert(q * val_of(tail, q) <= q * (p - 1)) by (nonlinear_arith)
        requires
            q >= 2,
            val_of(tail, q) <= p - 1,
    ;
    assert(pow(q, m + 1) == q * p) by {
        vstd::arithmetic::power::lemma_pow_adds(q, 1, m);
        vstd::arithmetic::power::lemma_pow1(q);
    }
    assert(pow(q, m + 1) <= pow(q, ds.len())) by {
        vstd::arithmetic::power::lemma_pow_increases(q as nat, m + 1, ds.len());
    }
    assert(q * (p - 1) == q * p - q) by (nonlinear_arith);
    assert(ds[i as int] < q);
}

} // verus!
