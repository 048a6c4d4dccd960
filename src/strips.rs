use crate::numtext::{
    all_digits, decimal_run_end, digit_value, digits_value, is_decimal, is_sign,
    lemma_digits_value_nonneg, lemma_run_end_bounds, lemma_run_end_suffix, number_end,
    radix_text_value, str_to_i64,
};
use vstd::prelude::*;

verus! {

/// Replicate a strip in the positive winding direction.
pub const PART_POS: u8 = 1;

/// Replicate a strip in the negative winding direction.
pub const PART_NEG: u8 = 2;

/// Replicate a strip in both directions.
pub const PART_BOTH: u8 = 3;

/// Why a strip selection was refused.
#[derive(Debug, Clone, Copy, PartialEq, Eq, Structural)]
pub enum PartsError {
    /// A sign with neither a strip number nor `*` after it, a character that
    /// starts no selection, or a text that selects nothing at all.
    MissingToken,
    /// A strip number outside `0..n_strips`.
    BadStrip,
}

/// Characters that stand between selections.
pub open spec fn is_separator(c: char) -> bool {
    c == ' ' || c == ','
}

/// The direction bits that a selection starting with `c` asks for: a sign
/// picks one direction, an unsigned selection both.
pub open spec fn sign_bits(c: char) -> u8 {
    if c == '+' {
        PART_POS
    } else if c == '-' {
        PART_NEG
    } else {
        PART_BOTH
    }
}

/// Every strip of `mask` with `bits` added.
pub open spec fn mark_all(mask: Seq<u8>, bits: u8) -> Seq<u8> {
    Seq::new(mask.len(), |k: int| mask[k] | bits)
}

/// The strip mask that the selection text `s` yields when read from index
/// `i` on, with `mask` built so far and `seen` telling whether a selection
/// has been read yet.
pub open spec fn parts_from(s: Seq<char>, i: int, n: int, mask: Seq<u8>, seen: bool) -> Result<
    Seq<u8>,
    PartsError,
>
    decreases s.len() - i,
{
    if i < 0 || i >= s.len() {
        if seen {
            Ok(mask)
        } else {
            Err(PartsError::MissingToken)
        }
    } else if is_separator(s[i]) {
        parts_from(s, i + 1, n, mask, seen)
    } else {
        let j = if is_sign(s[i]) {
            i + 1
        } else {
            i
        };
        let bits = sign_bits(s[i]);
        if j < s.len() && s[j] == '*' {
            parts_from(s, j + 1, n, mark_all(mask, bits), true)
        } else if j < s.len() && is_decimal(s[j]) {
            proof {
                lemma_run_end_bounds(s, j + 1);
            }
            let e = decimal_run_end(s, j);
            let strip = digits_value(s.subrange(j, e), 10);
            if 0 <= strip < n {
                parts_from(s, e, n, mask.update(strip, mask[strip] | bits), true)
            } else {
                Err(PartsError::BadStrip)
            }
        } else {
            Err(PartsError::MissingToken)
        }
    }
}

/// The strip mask that the whole selection text `s` yields for `n` strips.
pub open spec fn parts_spec(s: Seq<char>, n: int) -> Result<Seq<u8>, PartsError> {
    parts_from(s, 0, n, Seq::new(n as nat, |k: int| 0u8), false)
}

/// Adding direction bits to a byte of direction bits gives direction bits.
proof fn lemma_or_bits(a: u8, b: u8)
    requires
        a <= PART_BOTH,
        b <= PART_BOTH,
    ensures
        a | b <= PART_BOTH,
{
    assert(a <= 3 && b <= 3 ==> a | b <= 3) by (bit_vector);
}

/// Reading on from index `i` keeps the mask's length and keeps each of its
/// bytes within the two direction bits.
proof fn lemma_parts_from_shape(s: Seq<char>, i: int, n: int, mask: Seq<u8>, seen: bool)
    requires
        mask.len() == n,
        forall|k: int| 0 <= k < n ==> mask[k] <= PART_BOTH,
    ensures
        parts_from(s, i, n, mask, seen) is Ok ==> {
            let m = parts_from(s, i, n, mask, seen)->Ok_0;
            &&& m.len() == n
            &&& forall|k: int| 0 <= k < n ==> m[k] <= PART_BOTH
        },
    decreases s.len() - i,
{
    if 0 <= i < s.len() {
        if is_separator(s[i]) {
            lemma_parts_from_shape(s, i + 1, n, mask, seen);
        } else {
            let j = if is_sign(s[i]) {
                i + 1
            } else {
                i
            };
            let bits = sign_bits(s[i]);
            if j < s.len() && s[j] == '*' {
                let marked = mark_all(mask, bits);
                assert forall|k: int| 0 <= k < n implies marked[k] <= PART_BOTH by {
                    lemma_or_bits(mask[k], bits);
                }
                lemma_parts_from_shape(s, j + 1, n, marked, true);
            } else if j < s.len() && is_decimal(s[j]) {
                lemma_run_end_bounds(s, j + 1);
                let e = decimal_run_end(s, j);
                let strip = digits_value(s.subrange(j, e), 10);
                if 0 <= strip < n {
                    let updated = mask.update(strip, mask[strip] | bits);
                    lemma_or_bits(mask[strip], bits);
                    lemma_parts_from_shape(s, e, n, updated, true);
                }
            }
        }
    }
}

/// A strip selection that is accepted yields one byte per strip, each
/// holding no more than the two direction bits.
pub proof fn lemma_parts_mask_shape(s: Seq<char>, n: nat)
    ensures
        parts_spec(s, n as int) is Ok ==> {
            let m = parts_spec(s, n as int)->Ok_0;
            &&& m.len() == n
            &&& forall|k: int| 0 <= k < n ==> m[k] <= PART_BOTH
        },
{
    lemma_parts_from_shape(s, 0, n as int, Seq::new(n, |k: int| 0u8), false);
}

/// Reads a strip selection: separators (space, comma) and selections, each
/// an optional sign followed by `*` (every strip) or a strip number below
/// `n_strips`. A `+` asks for the positive direction, a `-` for the
/// negative one, no sign for both. The result holds one byte of direction
/// bits per strip.
pub fn parse_parts(parts: &[char], n_strips: u32) -> (r: Result<Vec<u8>, PartsError>)
    ensures
        match parts_spec(parts@, n_strips as int) {
            Ok(m) => r is Ok && r->Ok_0@ == m,
            Err(e) => r == Err::<Vec<u8>, PartsError>(e),
        },
{
    let n: usize = n_strips as usize;
    let mut mask: Vec<u8> = Vec::new();
    while mask.len() < n
        invariant
            mask@.len() <= n,
            forall|k: int| 0 <= k < mask@.len() ==> mask@[k] == 0u8,
        decreases n - mask@.len(),
    {
        mask.push(0u8);
    }
    assert(mask@ =~= Seq::new(n as nat, |k: int| 0u8));
    let len: usize = parts.len();
    let mut i: usize = 0;
    let mut seen: bool = false;
    while i < len
        invariant
            len == parts@.len(),
            i <= len,
            mask@.len() == n,
            n == n_strips,
            parts_from(parts@, i as int, n as int, mask@, seen) == parts_spec(parts@, n as int),
        decreases len - i,
    {
        let c: char = parts[i];
        if c == ' ' || c == ',' {
            i = i + 1;
        } else {
            let j: usize = if c == '+' || c == '-' {
                i + 1
            } else {
                i
            };
            let bits: u8 = if c == '+' {
                PART_POS
            } else if c == '-' {
                PART_NEG
            } else {
                PART_BOTH
            };
            if j < len && parts[j] == '*' {
                let ghost before = mask@;
                let mut k: usize = 0;
                while k < n
                    invariant
                        k <= n,
                        mask@.len() == n,
                        before.len() == n,
                        forall|q: int| 0 <= q < k ==> mask@[q] == before[q] | bits,
                        forall|q: int| k <= q < n ==> mask@[q] == before[q],
                    decreases n - k,
                {
                    let b: u8 = mask[k] | bits;
                    mask.set(k, b);
                    k = k + 1;
                }
                assert(mask@ =~= mark_all(before, bits));
                i = j + 1;
                seen = true;
            } else if j < len && '0' <= parts[j] && parts[j] <= '9' {
                let ghost s = parts@;
                let rest: &[char] = &parts[j..len];
                let mut ncp: usize = 0;
                proof {
                    lemma_run_end_bounds(s, j as int + 1);
                    lemma_run_end_suffix(s, j as int, 0);
                    lemma_run_end_bounds(rest@, 0);
                    assert(rest@ =~= s.subrange(j as int, len as int));
                    assert(!is_sign(rest@[0]));
                    let e = decimal_run_end(s, j as int);
                    let text = rest@.subrange(0, number_end(rest@));
                    assert(text =~= s.subrange(j as int, e));
                    assert forall|q: int| 0 <= q < text.len() implies #[trigger] digit_value(text[q]) < 10 by {
                        assert(is_decimal(s[j + q]));
                    }
                    lemma_digits_value_nonneg(text, 10);
                    assert(text.len() > 0 && text[0] == s[j as int]);
                    assert(all_digits(text, 10));
                    assert(radix_text_value(text, 10) == Some(digits_value(text, 10)));
                }
                let read = str_to_i64(rest, &mut ncp, 10);
                match read {
                    Ok(strip) => {
                        if strip < n_strips as i64 {
                            let b: u8 = mask[strip as usize] | bits;
                            mask.set(strip as usize, b);
                            i = j + ncp + 1;
                            seen = true;
                        } else {
                            return Err(PartsError::BadStrip);
                        }
                    },
                    Err(_) => {
                        return Err(PartsError::BadStrip);
                    },
                }
            } else {
                return Err(PartsError::MissingToken);
            }
        }
    }
    if seen {
        Ok(mask)
    } else {
        Err(PartsError::MissingToken)
    }
}

/// One transform of the replication list: strip `strip`, copied in the
/// negative or positive direction by a rotation about z through
/// `turn / n_strips` of a full turn (composed, in the negative direction,
/// with a half turn that flips z).
#[derive(Debug, Clone, Copy, PartialEq, Eq, Structural)]
pub struct StripTransform {
    pub strip: usize,
    pub negative: bool,
    pub turn: usize,
}

/// The direction bit that one side of the replication reads.
pub open spec fn side_bit(negative: bool) -> u8 {
    if negative {
        PART_NEG
    } else {
        PART_POS
    }
}

/// The transforms of one side for the first `k` strips of `mask`, in strip
/// order: a strip whose mask holds the side's bit gets one, turned by its
/// own index on the positive side and by its index counted from the other
/// end on the negative side.
pub open spec fn side_prefix(mask: Seq<u8>, negative: bool, k: int) -> Seq<StripTransform>
    decreases k,
{
    if k <= 0 {
        Seq::empty()
    } else {
        let before = side_prefix(mask, negative, k - 1);
        if mask[k - 1] & side_bit(negative) != 0 {
            before.push(
                StripTransform {
                    strip: (k - 1) as usize,
                    negative,
                    turn: if negative {
                        (mask.len() - k) as usize
                    } else {
                        (k - 1) as usize
                    },
                },
            )
        } else {
            before
        }
    }
}

/// Every transform that the mask asks for: the negative side first, then
/// the positive side.
pub open spec fn replication_spec(mask: Seq<u8>) -> Seq<StripTransform> {
    side_prefix(mask, true, mask.len() as int) + side_prefix(mask, false, mask.len() as int)
}

/// The turn of a transform of strip `k` out of `n` on the given side.
pub open spec fn side_turn(n: int, k: int, negative: bool) -> int {
    if negative {
        n - 1 - k
    } else {
        k
    }
}

/// What the transforms of one side hold for the first `k` strips: each is a
/// strip below `k` that asks for this side, with the side's turn; the
/// strips come in ascending order; and every strip below `k` that asks for
/// this side has one.
proof fn lemma_side_prefix(mask: Seq<u8>, negative: bool, k: int)
    requires
        0 <= k <= mask.len(),
        mask.len() <= usize::MAX,
    ensures
        forall|i: int|
            0 <= i < side_prefix(mask, negative, k).len() ==> {
                let e = #[trigger] side_prefix(mask, negative, k)[i];
                &&& e.strip < k
                &&& e.negative == negative
                &&& mask[e.strip as int] & side_bit(negative) != 0
                &&& e.turn == side_turn(mask.len() as int, e.strip as int, negative)
            },
        forall|i: int, j: int|
            0 <= i < j < side_prefix(mask, negative, k).len() ==> side_prefix(mask, negative, k)[i].strip
                < side_prefix(mask, negative, k)[j].strip,
        forall|q: int|
            0 <= q < k && #[trigger] (mask[q] & side_bit(negative)) != 0 ==> exists|i: int|
                0 <= i < side_prefix(mask, negative, k).len() && (#[trigger] side_prefix(
                    mask,
                    negative,
                    k,
                )[i]).strip == q,
    decreases k,
{
    if k > 0 {
        lemma_side_prefix(mask, negative, k - 1);
        let before = side_prefix(mask, negative, k - 1);
        let now = side_prefix(mask, negative, k);
        if mask[k - 1] & side_bit(negative) != 0 {
            assert(now == before.push(
                StripTransform {
                    strip: (k - 1) as usize,
                    negative,
                    turn: side_turn(mask.len() as int, k - 1, negative) as usize,
                },
            ));
            assert forall|q: int|
                0 <= q < k && #[trigger] (mask[q] & side_bit(negative)) != 0 implies exists|i: int|
                    0 <= i < now.len() && (#[trigger] now[i]).strip == q by {
                if q == k - 1 {
                    assert(now[now.len() - 1].strip == q);
                } else {
                    let i = choose|i: int| 0 <= i < before.len() && (#[trigger] before[i]).strip == q;
                    assert(now[i] == before[i]);
                }
            }
        } else {
            assert(now == before);
        }
    }
}

/// The replication plan holds exactly one transform for each requested
/// (strip, direction) pair: every transform names a strip whose mask asks
/// for its direction and carries that direction's turn, no pair appears
/// twice, and every requested pair appears. All the negative transforms
/// come before the positive ones.
pub proof fn lemma_replication_plan(mask: Seq<u8>)
    requires
        mask.len() <= usize::MAX,
    ensures
        forall|i: int|
            0 <= i < replication_spec(mask).len() ==> {
                let e = #[trigger] replication_spec(mask)[i];
                &&& e.strip < mask.len()
                &&& mask[e.strip as int] & side_bit(e.negative) != 0
                &&& e.turn == side_turn(mask.len() as int, e.strip as int, e.negative)
            },
        forall|i: int, j: int|
            0 <= i < j < replication_spec(mask).len() ==> !(replication_spec(mask)[i].strip
                == replication_spec(mask)[j].strip && replication_spec(mask)[i].negative
                == replication_spec(mask)[j].negative),
        forall|i: int, j: int|
            0 <= i < j < replication_spec(mask).len() && !replication_spec(mask)[i].negative
                ==> !replication_spec(mask)[j].negative,
        forall|q: int, negative: bool|
            0 <= q < mask.len() && #[trigger] (mask[q] & side_bit(negative)) != 0 ==> exists|i: int|
                0 <= i < replication_spec(mask).len() && (#[trigger] replication_spec(mask)[i]).strip
                    == q && replication_spec(mask)[i].negative == negative,
{
    let n = mask.len() as int;
    let neg = side_prefix(mask, true, n);
    let pos = side_prefix(mask, false, n);
    let plan = replication_spec(mask);
    lemma_side_prefix(mask, true, n);
    lemma_side_prefix(mask, false, n);
    assert(plan == neg + pos);
    assert forall|i: int| 0 <= i < plan.len() implies {
        let e = #[trigger] plan[i];
        &&& e.strip < mask.len()
        &&& mask[e.strip as int] & side_bit(e.negative) != 0
        &&& e.turn == side_turn(mask.len() as int, e.strip as int, e.negative)
    } by {
        if i < neg.len() {
            assert(plan[i] == neg[i]);
        } else {
            assert(plan[i] == pos[i - neg.len()]);
        }
    }
    assert forall|i: int, j: int| 0 <= i < j < plan.len() implies !(plan[i].strip == plan[j].strip
        && plan[i].negative == plan[j].negative) by {
        if j < neg.len() {
            assert(plan[i] == neg[i] && plan[j] == neg[j]);
        } else if i >= neg.len() {
            assert(plan[i] == pos[i - neg.len()] && plan[j] == pos[j - neg.len()]);
        } else {
            assert(plan[i] == neg[i] && plan[j] == pos[j - neg.len()]);
        }
    }
    assert forall|i: int, j: int| 0 <= i < j < plan.len() && !plan[i].negative implies !plan[j].negative by {
        if i < neg.len() {
            assert(plan[i] == neg[i]);
        } else {
            assert(plan[j] == pos[j - neg.len()]);
        }
    }
    assert forall|q: int, negative: bool|
        0 <= q < mask.len() && #[trigger] (mask[q] & side_bit(negative)) != 0 implies exists|i: int|
            0 <= i < plan.len() && (#[trigger] plan[i]).strip == q && plan[i].negative == negative by {
        if negative {
            let i = choose|i: int| 0 <= i < neg.len() && (#[trigger] neg[i]).strip == q;
            assert(plan[i] == neg[i]);
        } else {
            let i = choose|i: int| 0 <= i < pos.len() && (#[trigger] pos[i]).strip == q;
            assert(plan[i + neg.len()] == pos[i]);
        }
    }
}

/// Appends to `out` the transforms of one side of the replication.
fn part_side(partlist: &[u8], negative: bool, out: &mut Vec<StripTransform>)
    ensures
        final(out)@ == old(out)@ + side_prefix(partlist@, negative, partlist@.len() as int),
{
    let n: usize = partlist.len();
    let bit: u8 = if negative {
        PART_NEG
    } else {
        PART_POS
    };
    let ghost start = out@;
    let mut k: usize = 0;
    while k < n
        invariant
            n == partlist@.len(),
            k <= n,
            bit == side_bit(negative),
            out@ == start + side_prefix(partlist@, negative, k as int),
        decreases n - k,
    {
        if partlist[k] & bit != 0 {
            let turn: usize = if negative {
                n - 1 - k
            } else {
                k
            };
            out.push(StripTransform { strip: k, negative, turn });
        }
        k = k + 1;
        assert(out@ =~= start + side_prefix(partlist@, negative, k as int));
    }
}

/// The transforms that tile the sampled patch around the sphere for the
/// strips that `partlist` selects: the negative direction first, then the
/// positive one, each in strip order.
pub fn replication_plan(partlist: &[u8]) -> (r: Vec<StripTransform>)
    ensures
        r@ == replication_spec(partlist@),
{
    let mut out: Vec<StripTransform> = Vec::new();
    part_side(partlist, true, &mut out);
    part_side(partlist, false, &mut out);
    assert(out@ =~= replication_spec(partlist@));
    out
}

} // verus!
