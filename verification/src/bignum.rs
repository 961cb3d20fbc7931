//! Unbounded non-negative integers held as little-endian byte limbs.
//!
//! Mask elements and running aggregation sums are such numbers. A value is
//! kept *canonical*: no trailing zero limb, so the empty vector is the one
//! representation of zero and equal values have equal limb vectors.

use vstd::prelude::*;

verus! {

/// Little-endian interpretation of a byte sequence as a natural number.
pub open spec fn le_val(s: Seq<u8>) -> nat
    decreases s.len(),
{
    if s.len() == 0 {
        0
    } else {
        s[0] as nat + 256 * le_val(s.subrange(1, s.len() as int))
    }
}

/// A limb sequence is canonical when it has no trailing zero limb.
pub open spec fn canonical(s: Seq<u8>) -> bool {
    s.len() == 0 || s[s.len() - 1] != 0
}

/// 256 raised to `n`: the weight of the limb at index `n`.
pub open spec fn pow256(n: nat) -> nat
    decreases n,
{
    if n == 0 {
        1
    } else {
        256 * pow256((n - 1) as nat)
    }
}

pub proof fn lemma_pow256_pos(n: nat)
    ensures
        pow256(n) >= 1,
    decreases n,
{
    if n > 0 {
        lemma_pow256_pos((n - 1) as nat);
    }
}

pub proof fn lemma_pow256_adds(a: nat, b: nat)
    ensures
        pow256(a + b) == pow256(a) * pow256(b),
    decreases a,
{
    if a == 0 {
        assert(pow256(a) == 1);
        assert(pow256(a + b) == pow256(a) * pow256(b)) by (nonlinear_arith)
            requires
                a == 0,
                pow256(a) == 1,
                pow256(a + b) == pow256(b),
        ;
    } else {
        lemma_pow256_adds((a - 1) as nat, b);
        assert(pow256((a + b - 1) as nat) == pow256((a - 1) as nat) * pow256(b));
        assert(pow256(a + b) == 256 * pow256((a + b - 1) as nat));
        assert(pow256(a) == 256 * pow256((a - 1) as nat));
        assert(pow256(a + b) == pow256(a) * pow256(b)) by (nonlinear_arith)
            requires
                pow256((a + b - 1) as nat) == pow256((a - 1) as nat) * pow256(b),
                pow256(a + b) == 256 * pow256((a + b - 1) as nat),
                pow256(a) == 256 * pow256((a - 1) as nat),
        ;
    }
}

pub proof fn lemma_pow256_increases(a: nat, b: nat)
    requires
        a <= b,
    ensures
        pow256(a) <= pow256(b),
{
    lemma_pow256_adds(a, (b - a) as nat);
    lemma_pow256_pos((b - a) as nat);
    assert(a + (b - a) as nat == b);
    assert(pow256(a) * pow256((b - a) as nat) >= pow256(a)) by (nonlinear_arith)
        requires
            pow256((b - a) as nat) >= 1,
            pow256(a) >= 0,
    ;
}

/// Appending a limb adds its weighted value.
pub proof fn lemma_le_val_push(s: Seq<u8>, b: u8)
    ensures
        le_val(s.push(b)) == le_val(s) + (b as nat) * pow256(s.len()),
    decreases s.len(),
{
    if s.len() == 0 {
        assert(s.push(b).subrange(1, 1) =~= Seq::<u8>::empty());
        assert(le_val(Seq::<u8>::empty()) == 0);
        assert(le_val(s.push(b)) == b as nat);
        assert(pow256(s.len()) == 1);
        assert(le_val(s) + (b as nat) * pow256(s.len()) == b as nat) by (nonlinear_arith)
            requires
                le_val(s) == 0,
                pow256(s.len()) == 1,
        ;
    } else {
        let t = s.subrange(1, s.len() as int);
        assert(s.push(b).subrange(1, s.len() as int + 1) =~= t.push(b));
        lemma_le_val_push(t, b);
        assert(le_val(s.push(b)) == s[0] as nat + 256 * le_val(t.push(b)));
        assert(le_val(s) == s[0] as nat + 256 * le_val(t));
        assert(pow256(s.len()) == 256 * pow256(t.len()));
        assert(le_val(s.push(b)) == le_val(s) + (b as nat) * pow256(s.len())) by (nonlinear_arith)
            requires
                le_val(s.push(b)) == s[0] as nat + 256 * le_val(t.push(b)),
                le_val(t.push(b)) == le_val(t) + (b as nat) * pow256(t.len()),
                le_val(s) == s[0] as nat + 256 * le_val(t),
                pow256(s.len()) == 256 * pow256(t.len()),
        ;
    }
}

/// A limb sequence of length `n` holds a value below `pow256(n)`.
pub proof fn lemma_le_val_bound(s: Seq<u8>)
    ensures
        le_val(s) < pow256(s.len()),
    decreases s.len(),
{
    if s.len() > 0 {
        lemma_le_val_bound(s.subrange(1, s.len() as int));
        assert(256 * le_val(s.subrange(1, s.len() as int)) <= 256 * (pow256((s.len() - 1) as nat) - 1))
            by (nonlinear_arith)
            requires
                le_val(s.subrange(1, s.len() as int)) <= pow256((s.len() - 1) as nat) - 1,
        ;
    }
}

/// A nonzero top limb puts the value at or above the top limb's weight.
pub proof fn lemma_le_val_lower(s: Seq<u8>)
    requires
        s.len() > 0,
        s[s.len() - 1] != 0,
    ensures
        le_val(s) >= pow256((s.len() - 1) as nat),
    decreases s.len(),
{
    if s.len() == 1 {
    } else {
        let t = s.subrange(1, s.len() as int);
        lemma_le_val_lower(t);
        assert(256 * le_val(t) >= 256 * pow256((t.len() - 1) as nat)) by (nonlinear_arith)
            requires
                le_val(t) >= pow256((t.len() - 1) as nat),
        ;
    }
}

/// The value of a sequence splits at any index into low and weighted high part.
pub proof fn lemma_le_val_split(s: Seq<u8>, i: int)
    requires
        0 <= i <= s.len(),
    ensures
        le_val(s) == le_val(s.subrange(0, i)) + pow256(i as nat) * le_val(
            s.subrange(i, s.len() as int),
        ),
    decreases i,
{
    if i == 0 {
        assert(s.subrange(0, 0) =~= Seq::<u8>::empty());
        assert(le_val(Seq::<u8>::empty()) == 0);
        assert(s.subrange(0, s.len() as int) =~= s);
        assert(pow256(i as nat) == 1);
        assert(le_val(s) == le_val(s.subrange(0, i)) + pow256(i as nat) * le_val(
            s.subrange(i, s.len() as int),
        )) by (nonlinear_arith)
            requires
                le_val(s.subrange(0, i)) == 0,
                pow256(i as nat) == 1,
                le_val(s.subrange(i, s.len() as int)) == le_val(s),
        ;
    } else {
        let t = s.subrange(1, s.len() as int);
        lemma_le_val_split(t, i - 1);
        assert(t.subrange(0, i - 1) =~= s.subrange(0, i).subrange(1, i));
        assert(t.subrange(i - 1, t.len() as int) =~= s.subrange(i, s.len() as int));
        let low = s.subrange(0, i);
        let high = s.subrange(i, s.len() as int);
        assert(le_val(s) == s[0] as nat + 256 * le_val(t));
        assert(le_val(t) == le_val(low.subrange(1, i)) + pow256((i - 1) as nat) * le_val(high));
        assert(le_val(low) == low[0] as nat + 256 * le_val(low.subrange(1, i)));
        assert(low[0] == s[0]);
        assert(pow256(i as nat) == 256 * pow256((i - 1) as nat));
        assert(le_val(s) == le_val(low) + pow256(i as nat) * le_val(high)) by (nonlinear_arith)
            requires
                le_val(s) == s[0] as nat + 256 * le_val(t),
                le_val(t) == le_val(low.subrange(1, i)) + pow256((i - 1) as nat) * le_val(high),
                le_val(low) == s[0] as nat + 256 * le_val(low.subrange(1, i)),
                pow256(i as nat) == 256 * pow256((i - 1) as nat),
        ;
    }
}

/// Equal values in canonical form have equal limbs.
pub proof fn lemma_canonical_unique(a: Seq<u8>, b: Seq<u8>)
    requires
        canonical(a),
        canonical(b),
        le_val(a) == le_val(b),
    ensures
        a == b,
    decreases a.len(),
{
    if a.len() == 0 {
        if b.len() > 0 {
            lemma_le_val_lower(b);
            lemma_pow256_pos((b.len() - 1) as nat);
        }
        assert(a =~= b);
    } else if b.len() == 0 {
        lemma_le_val_lower(a);
        lemma_pow256_pos((a.len() - 1) as nat);
    } else {
        let at = a.subrange(1, a.len() as int);
        let bt = b.subrange(1, b.len() as int);
        assert(a[0] as nat + 256 * le_val(at) == b[0] as nat + 256 * le_val(bt));
        let v = le_val(a) as int;
        vstd::arithmetic::div_mod::lemma_fundamental_div_mod_converse(
            v,
            256,
            le_val(at) as int,
            a[0] as int,
        );
        vstd::arithmetic::div_mod::lemma_fundamental_div_mod_converse(
            v,
            256,
            le_val(bt) as int,
            b[0] as int,
        );
        assert(a[0] == b[0] && le_val(at) == le_val(bt));
        assert(canonical(at));
        assert(canonical(bt));
        lemma_canonical_unique(at, bt);
        assert(a.len() == b.len());
        assert(forall|j: int| 1 <= j < a.len() ==> a[j] == at[j - 1] && b[j] == bt[j - 1]);
        assert(a =~= b);
    }
}

/// Byte-for-byte equality of two byte vectors.
pub fn bytes_eq(a: &Vec<u8>, b: &Vec<u8>) -> (r: bool)
    ensures
        r == (a@ == b@),
{
    if a.len() != b.len() {
        assert(a@.len() != b@.len());
        return false;
    }
    let n = a.len();
    let mut i: usize = 0;
    while i < n
        invariant
            i <= n,
            n == a@.len() == b@.len(),
            forall|j: int| 0 <= j < i ==> a@[j] == b@[j],
        decreases n - i,
    {
        if a[i] != b[i] {
            return false;
        }
        i += 1;
    }
    proof {
        assert(a@ =~= b@);
    }
    true
}

/// Copies a byte vector.
pub fn copy_bytes(a: &Vec<u8>) -> (r: Vec<u8>)
    ensures
        r@ == a@,
{
    let mut out: Vec<u8> = Vec::new();
    let mut i: usize = 0;
    while i < a.len()
        invariant
            i <= a@.len(),
            out@ == a@.subrange(0, i as int),
        decreases a@.len() - i,
    {
        out.push(a[i]);
        proof {
            assert(a@.subrange(0, i as int).push(a@[i as int]) =~= a@.subrange(0, i + 1));
        }
        i += 1;
    }
    proof {
        assert(a@.subrange(0, a@.len() as int) =~= a@);
    }
    out
}

/// The canonical form of a limb sequence: trailing zero limbs dropped.
pub open spec fn strip_spec(s: Seq<u8>) -> Seq<u8>
    decreases s.len(),
{
    if s.len() == 0 {
        s
    } else if s[s.len() - 1] != 0 {
        s
    } else {
        strip_spec(s.drop_last())
    }
}

pub proof fn lemma_strip_spec(s: Seq<u8>)
    ensures
        canonical(strip_spec(s)),
        le_val(strip_spec(s)) == le_val(s),
        canonical(s) ==> strip_spec(s) == s,
    decreases s.len(),
{
    if s.len() == 0 {
    } else if s[s.len() - 1] != 0 {
    } else {
        lemma_strip_spec(s.drop_last());
        assert(s =~= s.drop_last().push(0u8));
        lemma_le_val_push(s.drop_last(), 0u8);
    }
}

/// Whether the limb sequence is already canonical.
pub fn is_canonical(a: &Vec<u8>) -> (r: bool)
    ensures
        r == canonical(a@),
{
    a.len() == 0 || a[a.len() - 1] != 0
}

/// A canonical number below the weight of `w` limbs fits in `w` limbs.
pub proof fn lemma_val_lt_fits(a: Seq<u8>, w: nat)
    requires
        canonical(a),
        le_val(a) < pow256(w),
    ensures
        a.len() <= w,
{
    if a.len() > w {
        lemma_le_val_lower(a);
        lemma_pow256_increases(w, (a.len() - 1) as nat);
    }
}

/// Drops trailing zero limbs, giving the canonical form of the same value.
pub fn strip(a: Vec<u8>) -> (r: Vec<u8>)
    ensures
        r@ == strip_spec(a@),
        canonical(r@),
        le_val(r@) == le_val(a@),
{
    proof {
        lemma_strip_spec(a@);
    }
    let mut v = a;
    loop
        invariant
            strip_spec(v@) == strip_spec(a@),
        decreases v@.len(),
    {
        let n = v.len();
        if n == 0 {
            proof {
                lemma_strip_spec(a@);
            }
            return v;
        }
        if v[n - 1] != 0 {
            proof {
                lemma_strip_spec(a@);
            }
            return v;
        }
        proof {
            assert(v@.subrange(0, n - 1) =~= v@.drop_last());
        }
        v.pop();
    }
}

/// Compares two canonical numbers by value.
pub fn num_lt(a: &Vec<u8>, b: &Vec<u8>) -> (r: bool)
    requires
        canonical(a@),
        canonical(b@),
    ensures
        r == (le_val(a@) < le_val(b@)),
{
    if a.len() != b.len() {
        proof {
            if a@.len() < b@.len() {
                lemma_le_val_bound(a@);
                lemma_le_val_lower(b@);
                lemma_pow256_increases(a@.len(), (b@.len() - 1) as nat);
            } else {
                lemma_le_val_bound(b@);
                lemma_le_val_lower(a@);
                lemma_pow256_increases(b@.len(), (a@.len() - 1) as nat);
            }
        }
        return a.len() < b.len();
    }
    let n = a.len();
    let mut i: usize = n;
    while i > 0
        invariant
            i <= n,
            n == a@.len() == b@.len(),
            forall|j: int| i <= j < n ==> a@[j] == b@[j],
        decreases i,
    {
        i = i - 1;
        if a[i] < b[i] {
            proof {
                lemma_lt_at(a@, b@, i as int);
            }
            return true;
        }
        if b[i] < a[i] {
            proof {
                lemma_lt_at(b@, a@, i as int);
            }
            return false;
        }
    }
    proof {
        assert(a@ =~= b@);
    }
    false
}

/// A smaller limb at the first (topmost) difference makes the value smaller.
proof fn lemma_lt_at(a: Seq<u8>, b: Seq<u8>, i: int)
    requires
        a.len() == b.len(),
        0 <= i < a.len(),
        forall|j: int| i < j < a.len() ==> a[j] == b[j],
        a[i] < b[i],
    ensures
        le_val(a) < le_val(b),
{
    let n = a.len() as int;
    lemma_le_val_split(a, i);
    lemma_le_val_split(b, i);
    let ah = a.subrange(i, n);
    let bh = b.subrange(i, n);
    assert(ah.subrange(1, ah.len() as int) =~= bh.subrange(1, bh.len() as int));
    // low parts are bounded by the weight at i
    lemma_le_val_bound(a.subrange(0, i));
    lemma_le_val_bound(b.subrange(0, i));
    let rest = le_val(ah.subrange(1, ah.len() as int));
    assert(le_val(ah) == a[i] as nat + 256 * rest);
    assert(le_val(bh) == b[i] as nat + 256 * rest);
    assert(le_val(a) < le_val(b)) by (nonlinear_arith)
        requires
            le_val(a) == le_val(a.subrange(0, i)) + pow256(i as nat) * le_val(ah),
            le_val(b) == le_val(b.subrange(0, i)) + pow256(i as nat) * le_val(bh),
            le_val(a.subrange(0, i)) < pow256(i as nat),
            le_val(b.subrange(0, i)) >= 0,
            le_val(ah) < le_val(bh),
            pow256(i as nat) >= 1,
    {
        lemma_pow256_pos(i as nat);
    }
}

/// Adds two numbers limbwise with carry; the result is canonical.
pub fn num_add(a: &Vec<u8>, b: &Vec<u8>) -> (r: Vec<u8>)
    ensures
        canonical(r@),
        le_val(r@) == le_val(a@) + le_val(b@),
{
    let n = if a.len() > b.len() {
        a.len()
    } else {
        b.len()
    };
    let mut out: Vec<u8> = Vec::new();
    let mut carry: u8 = 0;
    let mut i: usize = 0;
    while i < n
        invariant
            i <= n,
            n == if a@.len() > b@.len() {
                a@.len()
            } else {
                b@.len()
            },
            out@.len() == i,
            carry <= 1,
            le_val(out@) + (carry as nat) * pow256(i as nat) == le_val(take_pre(a@, i as int))
                + le_val(take_pre(b@, i as int)),
        decreases n - i,
    {
        let da: u8 = if i < a.len() {
            a[i]
        } else {
            0
        };
        let db: u8 = if i < b.len() {
            b[i]
        } else {
            0
        };
        let s: usize = da as usize + db as usize + carry as usize;
        let digit: u8 = (s % 256) as u8;
        let new_carry: u8 = (s / 256) as u8;
        proof {
            lemma_take_pre_step(a@, i as int);
            lemma_take_pre_step(b@, i as int);
            lemma_le_val_push(out@, digit);
            assert((carry as nat) * pow256(i as nat) + (da as nat) * pow256(i as nat) + (db as nat)
                * pow256(i as nat) == (digit as nat) * pow256(i as nat) + (new_carry as nat) * (256
                * pow256(i as nat))) by (nonlinear_arith)
                requires
                    da as nat + db as nat + carry as nat == digit as nat + 256 * (new_carry as nat),
            ;
        }
        out.push(digit);
        carry = new_carry;
        i += 1;
    }
    proof {
        assert(take_pre(a@, n as int) =~= a@);
        assert(take_pre(b@, n as int) =~= b@);
    }
    if carry > 0 {
        proof {
            lemma_le_val_push(out@, carry);
        }
        out.push(carry);
    }
    strip(out)
}

/// The first `i` limbs of `s`, or all of them when `s` is shorter.
pub open spec fn take_pre(s: Seq<u8>, i: int) -> Seq<u8> {
    if i <= s.len() {
        s.subrange(0, i)
    } else {
        s
    }
}

proof fn lemma_take_pre_step(s: Seq<u8>, i: int)
    requires
        0 <= i,
    ensures
        i < s.len() ==> le_val(take_pre(s, i + 1)) == le_val(take_pre(s, i)) + (s[i] as nat)
            * pow256(i as nat),
        i >= s.len() ==> le_val(take_pre(s, i + 1)) == le_val(take_pre(s, i)),
{
    if i < s.len() {
        assert(take_pre(s, i + 1) =~= take_pre(s, i).push(s[i]));
        lemma_le_val_push(take_pre(s, i), s[i]);
    } else {
        assert(take_pre(s, i) =~= s);
        assert(take_pre(s, i + 1) =~= s);
    }
}

/// Builds the canonical limb form of a machine word.
pub fn num_from_u64(x: u64) -> (r: Vec<u8>)
    ensures
        canonical(r@),
        le_val(r@) == x as nat,
{
    let mut out: Vec<u8> = Vec::new();
    let mut rem: u64 = x;
    proof {
        assert(pow256(out@.len()) == 1);
        assert((rem as nat) * pow256(out@.len()) == rem as nat) by (nonlinear_arith)
            requires
                pow256(out@.len()) == 1,
        ;
    }
    while rem > 0
        invariant
            le_val(out@) + (rem as nat) * pow256(out@.len()) == x as nat,
        decreases rem,
    {
        let digit: u8 = (rem % 256) as u8;
        let next: u64 = rem / 256;
        proof {
            lemma_le_val_push(out@, digit);
            assert((rem as nat) * pow256(out@.len()) == (digit as nat) * pow256(out@.len()) + (next
                as nat) * (256 * pow256(out@.len()))) by (nonlinear_arith)
                requires
                    rem as nat == digit as nat + 256 * (next as nat),
            ;
        }
        out.push(digit);
        rem = next;
    }
    strip(out)
}

/// Pads a canonical number with zero limbs up to a fixed width.
pub fn pad_to(a: &Vec<u8>, width: usize) -> (r: Vec<u8>)
    requires
        a@.len() <= width,
    ensures
        r@.len() == width,
        le_val(r@) == le_val(a@),
        r@.subrange(0, a@.len() as int) == a@,
        forall|j: int| a@.len() <= j < width ==> r@[j] == 0,
{
    let mut out = copy_bytes(a);
    while out.len() < width
        invariant
            a@.len() <= out@.len() <= width,
            le_val(out@) == le_val(a@),
            out@.subrange(0, a@.len() as int) == a@,
            forall|j: int| a@.len() <= j < out@.len() ==> out@[j] == 0,
        decreases width - out@.len(),
    {
        proof {
            lemma_le_val_push(out@, 0u8);
            assert(out@.push(0u8).subrange(0, a@.len() as int) =~= out@.subrange(
                0,
                a@.len() as int,
            ));
        }
        out.push(0u8);
    }
    proof {
        assert(out@.subrange(0, a@.len() as int) =~= a@);
    }
    out
}

} // verus!
