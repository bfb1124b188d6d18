//! The 128-bit xorshift generator that drives every advance, with single steps
//! and an O(log n) jump through powers of its transition matrix over GF(2).

use vstd::prelude::*;

verus! {

/// Four 32-bit words forming one 128-bit generator register.
#[derive(Clone, Copy, Debug, PartialEq, Eq, Structural)]
pub struct XorShift {
    s0: u32,
    s1: u32,
    s2: u32,
    s3: u32,
}

/// The new last word of one step, from the first and the last word.
pub closed spec fn mix(x: u32, y: u32) -> u32 {
    let t = x ^ (x << 11u32);
    t ^ (t >> 8u32) ^ y ^ (y >> 19u32)
}

/// One step of the generator.
pub closed spec fn step(s: XorShift) -> XorShift {
    XorShift { s0: s.s1, s1: s.s2, s2: s.s3, s3: mix(s.s0, s.s3) }
}

/// `n` steps of the generator.
pub closed spec fn step_n(s: XorShift, n: nat) -> XorShift
    decreases n,
{
    if n == 0 {
        s
    } else {
        step(step_n(s, (n - 1) as nat))
    }
}

impl XorShift {
    pub closed spec fn words(self) -> Seq<u32> {
        seq![self.s0, self.s1, self.s2, self.s3]
    }

    /// A generator whose register holds the four given words.
    pub fn from_state(state: [u32; 4]) -> (r: XorShift)
        ensures
            r.words() == state@,
    {
        let r = XorShift { s0: state[0], s1: state[1], s2: state[2], s3: state[3] };
        assert(r.words() =~= state@);
        r
    }

    /// The four words of the register.
    pub fn state(&self) -> (r: [u32; 4])
        ensures
            r@ == self.words(),
    {
        let r = [self.s0, self.s1, self.s2, self.s3];
        assert(r@ =~= self.words());
        r
    }

    /// Applies one step of the generator.
    pub fn step_once(&mut self)
        ensures
            *final(self) == step(*old(self)),
    {
        let x = self.s0;
        let y = self.s3;
        let t = x ^ (x << 11u32);
        let t2 = t ^ (t >> 8u32) ^ y ^ (y >> 19u32);
        self.s0 = self.s1;
        self.s1 = self.s2;
        self.s2 = self.s3;
        self.s3 = t2;
    }

    /// Word `w` of the register.
    fn word(&self, w: usize) -> (r: u32)
        requires
            w < 4,
        ensures
            r == word_of(*self, w as int),
    {
        if w == 0 {
            self.s0
        } else if w == 1 {
            self.s1
        } else if w == 2 {
            self.s2
        } else {
            self.s3
        }
    }

    fn xor_with(&self, o: &XorShift) -> (r: XorShift)
        ensures
            r == xor(*self, *o),
    {
        XorShift { s0: self.s0 ^ o.s0, s1: self.s1 ^ o.s1, s2: self.s2 ^ o.s2, s3: self.s3 ^ o.s3 }
    }

    fn unit_vector(j: usize) -> (r: XorShift)
        requires
            j < 128,
        ensures
            r == unit(j as int),
    {
        let w = j / 32;
        let m: u32 = 1u32 << ((j % 32) as u32);
        XorShift {
            s0: if w == 0 { m } else { 0 },
            s1: if w == 1 { m } else { 0 },
            s2: if w == 2 { m } else { 0 },
            s3: if w == 3 { m } else { 0 },
        }
    }

    /// Reaches the state of `steps` single steps with O(log steps) products of
    /// 128 x 128 matrices over GF(2): the state always equals that of `advance(steps)`.
    pub fn jump(&mut self, steps: u64)
        ensures
            *final(self) == step_n(*old(self), steps as nat),
    {
        let mut cols = step_matrix();
        let ghost mut pw: nat = 1;
        let mut m: u64 = steps;
        while m > 0
            invariant
                is_power_matrix(cols@, pw),
                pw >= 1,
                step_n(*old(self), steps as nat) == step_n(*self, (m * pw) as nat),
            decreases m,
        {
            let ghost before = *self;
            let ghost m0 = m;
            let ghost pw0 = pw;
            if m & 1u64 == 1u64 {
                let next = apply(&cols, self, Ghost(pw));
                *self = next;
                proof {
                    assert(m0 % 2 == 1) by (bit_vector)
                        requires
                            m0 & 1u64 == 1u64,
                    ;
                    lemma_odd_split(m0 as nat, pw);
                    lemma_step_n_add(before, pw, (m0 * pw - pw) as nat);
                }
            } else {
                proof {
                    assert(m0 % 2 == 0) by (bit_vector)
                        requires
                            m0 & 1u64 != 1u64,
                    ;
                    lemma_even_split(m0 as nat, pw);
                }
            }
            assert(step_n(*old(self), steps as nat) == step_n(*self, ((m0 / 2) * (2 * pw0)) as nat));
            m = m >> 1u64;
            assert(m == m0 / 2) by (bit_vector)
                requires
                    m == m0 >> 1u64,
            ;
            if m > 0 {
                cols = square(&cols, Ghost(pw));
                proof {
                    pw = 2 * pw;
                }
            } else {
                proof {
                    assert(m * pw == 0 && (m0 / 2) * (2 * pw0) == 0) by (nonlinear_arith)
                        requires
                            m == 0,
                            m == m0 / 2,
                    ;
                }
            }
        }
        assert(m * pw == 0) by (nonlinear_arith)
            requires
                m == 0,
        ;
    }

    /// Applies `steps` single steps, in order.
    pub fn advance(&mut self, steps: u64)
        ensures
            *final(self) == step_n(*old(self), steps as nat),
    {
        let mut i: u64 = 0;
        while i < steps
            invariant
                i <= steps,
                *self == step_n(*old(self), i as nat),
            decreases steps - i,
        {
            self.step_once();
            i = i + 1;
        }
    }
}


/// The register with every bit cleared.
pub closed spec fn zero() -> XorShift {
    XorShift { s0: 0, s1: 0, s2: 0, s3: 0 }
}

/// Word-wise exclusive or of two registers: addition over GF(2)^128.
pub closed spec fn xor(a: XorShift, b: XorShift) -> XorShift {
    XorShift { s0: a.s0 ^ b.s0, s1: a.s1 ^ b.s1, s2: a.s2 ^ b.s2, s3: a.s3 ^ b.s3 }
}

/// The word of a register that holds bit `j` (bit `j % 32` of word `j / 32`).
pub closed spec fn word_of(s: XorShift, w: int) -> u32 {
    if w == 0 {
        s.s0
    } else if w == 1 {
        s.s1
    } else if w == 2 {
        s.s2
    } else {
        s.s3
    }
}

/// Whether bit `j` of the register is set.
pub closed spec fn bit(s: XorShift, j: int) -> bool {
    (word_of(s, j / 32) >> ((j % 32) as u32)) & 1u32 == 1u32
}

/// The register in which only bit `j` is set.
pub closed spec fn unit(j: int) -> XorShift {
    let m = 1u32 << ((j % 32) as u32);
    XorShift {
        s0: if j / 32 == 0 { m } else { 0 },
        s1: if j / 32 == 1 { m } else { 0 },
        s2: if j / 32 == 2 { m } else { 0 },
        s3: if j / 32 == 3 { m } else { 0 },
    }
}

/// The low `b` bits of a word, for `b < 32`.
pub closed spec fn low(x: u32, b: u32) -> u32 {
    x & !(0xffff_ffffu32 << b)
}

/// Word `i` of a register keeping only its bits below `j`.
pub closed spec fn low_word(x: u32, i: int, j: int) -> u32 {
    if j >= 32 * (i + 1) {
        x
    } else if j <= 32 * i {
        0
    } else {
        low(x, (j - 32 * i) as u32)
    }
}

/// The register `v` with every bit at or above `j` cleared.
pub closed spec fn below(v: XorShift, j: int) -> XorShift {
    XorShift {
        s0: low_word(v.s0, 0, j),
        s1: low_word(v.s1, 1, j),
        s2: low_word(v.s2, 2, j),
        s3: low_word(v.s3, 3, j),
    }
}

/// `cols` is the matrix of `k` steps: its column `j` is the image of bit `j`.
pub closed spec fn is_power_matrix(cols: Seq<XorShift>, k: nat) -> bool {
    &&& cols.len() == 128
    &&& forall|j: int| 0 <= j < 128 ==> #[trigger] cols[j] == step_n(unit(j), k)
}

proof fn lemma_mix_linear(a0: u32, a3: u32, b0: u32, b3: u32)
    by (bit_vector)
    ensures
        mix(a0 ^ b0, a3 ^ b3) == mix(a0, a3) ^ mix(b0, b3),
        mix(0, 0) == 0,
{
}

proof fn lemma_step_linear(a: XorShift, b: XorShift)
    ensures
        step(xor(a, b)) == xor(step(a), step(b)),
        step(zero()) == zero(),
{
    lemma_mix_linear(a.s0, a.s3, b.s0, b.s3);
}

/// Any number of steps is linear over GF(2): it maps sums to sums and zero to zero.
pub proof fn lemma_step_n_linear(a: XorShift, b: XorShift, n: nat)
    ensures
        step_n(xor(a, b), n) == xor(step_n(a, n), step_n(b, n)),
        step_n(zero(), n) == zero(),
    decreases n,
{
    if n > 0 {
        lemma_step_n_linear(a, b, (n - 1) as nat);
        lemma_step_linear(step_n(a, (n - 1) as nat), step_n(b, (n - 1) as nat));
    }
}

/// `b` steps after `a` steps are `a + b` steps.
pub proof fn lemma_step_n_add(s: XorShift, a: nat, b: nat)
    ensures
        step_n(step_n(s, a), b) == step_n(s, a + b),
    decreases b,
{
    if b > 0 {
        lemma_step_n_add(s, a, (b - 1) as nat);
    }
}

/// Zero steps leave every state as it is, so `advance(0)` and `jump(0)` change nothing.
pub proof fn lemma_step_n_zero(s: XorShift)
    ensures
        step_n(s, 0) == s,
{
}

/// One more step after `n` steps.
pub proof fn lemma_step_n_succ(s: XorShift, n: nat)
    ensures
        step_n(s, n + 1) == step(step_n(s, n)),
{
}

proof fn lemma_low_step(x: u32, b: u32)
    by (bit_vector)
    requires
        b < 32,
    ensures
        b < 31 && (x >> b) & 1u32 == 1u32 ==> low(x, (b + 1) as u32) == low(x, b) ^ (1u32 << b),
        b < 31 && (x >> b) & 1u32 != 1u32 ==> low(x, (b + 1) as u32) == low(x, b),
        b == 31 && (x >> b) & 1u32 == 1u32 ==> x == low(x, b) ^ (1u32 << b),
        b == 31 && (x >> b) & 1u32 != 1u32 ==> x == low(x, b),
        low(x, 0) == 0,
{
}

proof fn lemma_below_step(v: XorShift, j: int)
    requires
        0 <= j < 128,
    ensures
        below(v, j + 1) == (if bit(v, j) { xor(below(v, j), unit(j)) } else { below(v, j) }),
{
    let w = j / 32;
    let b = (j % 32) as u32;
    assert(j == 32 * w + b);
    lemma_low_step(word_of(v, w), b);
    lemma_xor_zero(v);
    let lhs = below(v, j + 1);
    let rhs = if bit(v, j) { xor(below(v, j), unit(j)) } else { below(v, j) };
    if w == 0 {
        assert(lhs == rhs);
    } else if w == 1 {
        assert(lhs == rhs);
    } else if w == 2 {
        assert(lhs == rhs);
    } else {
        assert(lhs == rhs);
    }
}

proof fn lemma_xor_zero_word(x: u32)
    by (bit_vector)
    ensures
        x ^ 0 == x,
        0u32 ^ x == x,
{
}

proof fn lemma_xor_zero(v: XorShift)
    ensures
        forall|x: u32| #[trigger] (x ^ 0u32) == x,
{
    assert forall|x: u32| #[trigger] (x ^ 0u32) == x by {
        lemma_xor_zero_word(x);
    }
}

proof fn lemma_below_ends(v: XorShift)
    ensures
        below(v, 0) == zero(),
        below(v, 128) == v,
{
    lemma_low_step(0, 0);
}


proof fn lemma_odd_split(m: nat, pw: nat)
    requires
        m % 2 == 1,
    ensures
        m * pw >= pw,
        m * pw - pw == (m / 2) * (2 * pw),
{
    assert(m == 2 * (m / 2) + 1);
    assert(m * pw == (2 * (m / 2) + 1) * pw) by (nonlinear_arith)
        requires
            m == 2 * (m / 2) + 1,
    ;
    assert((2 * (m / 2) + 1) * pw == (m / 2) * (2 * pw) + pw) by (nonlinear_arith);
}

proof fn lemma_even_split(m: nat, pw: nat)
    requires
        m % 2 == 0,
    ensures
        m * pw == (m / 2) * (2 * pw),
{
    assert(m == 2 * (m / 2));
    assert(m * pw == (2 * (m / 2)) * pw) by (nonlinear_arith)
        requires
            m == 2 * (m / 2),
    ;
    assert((2 * (m / 2)) * pw == (m / 2) * (2 * pw)) by (nonlinear_arith);
}

/// The product of the matrix of `k` steps with `v`: `k` steps from `v`.
fn apply(cols: &Vec<XorShift>, v: &XorShift, Ghost(k): Ghost<nat>) -> (r: XorShift)
    requires
        is_power_matrix(cols@, k),
    ensures
        r == step_n(*v, k),
{
    let mut acc = XorShift { s0: 0, s1: 0, s2: 0, s3: 0 };
    proof {
        lemma_below_ends(*v);
        lemma_step_n_linear(*v, *v, k);
    }
    let mut j: usize = 0;
    while j < 128
        invariant
            j <= 128,
            is_power_matrix(cols@, k),
            acc == step_n(below(*v, j as int), k),
        decreases 128 - j,
    {
        let b = (j % 32) as u32;
        let x = v.word(j / 32);
        proof {
            lemma_below_step(*v, j as int);
        }
        if (x >> b) & 1u32 == 1u32 {
            proof {
                lemma_step_n_linear(below(*v, j as int), unit(j as int), k);
            }
            acc = acc.xor_with(&cols[j]);
        }
        j = j + 1;
    }
    proof {
        lemma_below_ends(*v);
    }
    acc
}

/// The matrix of one step.
fn step_matrix() -> (r: Vec<XorShift>)
    ensures
        is_power_matrix(r@, 1),
{
    let mut cols: Vec<XorShift> = Vec::new();
    let mut j: usize = 0;
    while j < 128
        invariant
            j <= 128,
            cols@.len() == j,
            forall|i: int| 0 <= i < j ==> #[trigger] cols@[i] == step_n(unit(i), 1),
        decreases 128 - j,
    {
        let mut u = XorShift::unit_vector(j);
        u.step_once();
        proof {
            lemma_step_n_succ(unit(j as int), 0);
        }
        cols.push(u);
        j = j + 1;
    }
    cols
}

/// The matrix of `2k` steps from that of `k` steps.
fn square(cols: &Vec<XorShift>, Ghost(k): Ghost<nat>) -> (r: Vec<XorShift>)
    requires
        is_power_matrix(cols@, k),
    ensures
        is_power_matrix(r@, 2 * k),
{
    let mut out: Vec<XorShift> = Vec::new();
    let mut j: usize = 0;
    while j < 128
        invariant
            j <= 128,
            is_power_matrix(cols@, k),
            out@.len() == j,
            forall|i: int| 0 <= i < j ==> #[trigger] out@[i] == step_n(unit(i), 2 * k),
        decreases 128 - j,
    {
        let c = apply(cols, &cols[j], Ghost(k));
        proof {
            lemma_step_n_add(unit(j as int), k, k);
        }
        out.push(c);
        j = j + 1;
    }
    out
}

} // verus!
