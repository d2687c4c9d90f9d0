//! Workspace identifiers.
//!
//! Workspaces are rendered in ascending numeric order, so their names
//! must be read as integers.  A name counts as numeric when it is the
//! canonical decimal form of a 32-bit integer: digits without a leading
//! zero, an optional leading minus on a nonzero value.  Any other name
//! is excluded from the rendered view.  Canonical forms name distinct
//! integers with distinct strings, which is what makes the rendering
//! order *strictly* ascending.

use vstd::prelude::*;
use vstd::string::StrSliceExecFns;

verus! {

/// `c` is a decimal digit.
pub open spec fn is_digit(c: char) -> bool {
    '0' as int <= c as int <= '9' as int
}

/// The value of digit `c`.
pub open spec fn digit_val(c: char) -> int {
    c as int - '0' as int
}

/// Every character of `s` is a decimal digit.
pub open spec fn all_digits(s: Seq<char>) -> bool {
    forall|i: int| 0 <= i < s.len() ==> is_digit(#[trigger] s[i])
}

/// The number that the digit string `s` spells.
pub open spec fn digits_val(s: Seq<char>) -> int
    decreases s.len(),
{
    if s.len() == 0 {
        0
    } else {
        digits_val(s.drop_last()) * 10 + digit_val(s.last())
    }
}

/// `s` is a canonical digit string: nonempty, all digits, no leading
/// zero (except the single digit `0` itself).
pub open spec fn canonical_digits(s: Seq<char>) -> bool {
    all_digits(s) && s.len() >= 1 && (s.len() > 1 ==> s[0] != '0')
}

/// The integer a workspace name denotes, when the name is the canonical
/// decimal form of a value that fits a 32-bit signed integer.
pub open spec fn ws_id_of(s: Seq<char>) -> Option<int> {
    if canonical_digits(s) && digits_val(s) <= i32::MAX as int {
        Some(digits_val(s))
    } else if s.len() >= 2 && s[0] == '-' && canonical_digits(s.skip(1)) && s[1] != '0'
        && digits_val(s.skip(1)) <= -(i32::MIN as int) {
        Some(-digits_val(s.skip(1)))
    } else {
        None
    }
}

proof fn lemma_digits_val_nonneg(s: Seq<char>)
    requires
        all_digits(s),
    ensures
        digits_val(s) >= 0,
    decreases s.len(),
{
    if s.len() > 0 {
        assert(forall|k: int| 0 <= k < s.len() - 1 ==> s.drop_last()[k] == s[k]);
        lemma_digits_val_nonneg(s.drop_last());
    }
}

proof fn lemma_digits_prefix_le(s: Seq<char>, i: int)
    requires
        all_digits(s),
        0 <= i <= s.len(),
    ensures
        digits_val(s.take(i)) <= digits_val(s),
    decreases s.len(),
{
    if i < s.len() {
        assert(forall|k: int| 0 <= k < s.len() - 1 ==> s.drop_last()[k] == s[k]);
        assert(s.drop_last().take(i) =~= s.take(i));
        lemma_digits_prefix_le(s.drop_last(), i);
        lemma_digits_val_nonneg(s.drop_last());
    } else {
        assert(s.take(i) =~= s);
    }
}

proof fn lemma_digits_val_pos(s: Seq<char>)
    requires
        all_digits(s),
        s.len() >= 1,
        s[0] != '0',
    ensures
        digits_val(s) >= 1,
    decreases s.len(),
{
    if s.len() == 1 {
        assert(s.last() == s[0]);
        assert(is_digit(s[0]));
        assert(s[0] as int != '0' as int);
        assert(s.drop_last().len() == 0);
        assert(digits_val(s.drop_last()) == 0);
    } else {
        assert(forall|k: int| 0 <= k < s.len() - 1 ==> s.drop_last()[k] == s[k]);
        lemma_digits_val_pos(s.drop_last());
        assert(is_digit(s.last()));
    }
}

proof fn lemma_canonical_ge10(s: Seq<char>)
    requires
        canonical_digits(s),
        s.len() > 1,
    ensures
        digits_val(s) >= 10,
{
    assert(forall|k: int| 0 <= k < s.len() - 1 ==> s.drop_last()[k] == s[k]);
    lemma_digits_val_pos(s.drop_last());
}

proof fn lemma_digits_unique(a: Seq<char>, b: Seq<char>)
    requires
        canonical_digits(a),
        canonical_digits(b),
        digits_val(a) == digits_val(b),
    ensures
        a == b,
    decreases a.len(),
{
    let v = digits_val(a);
    lemma_digits_val_nonneg(a);
    if v <= 9 {
        if a.len() > 1 {
            lemma_canonical_ge10(a);
        }
        if b.len() > 1 {
            lemma_canonical_ge10(b);
        }
        assert(a.last() == a[0] && b.last() == b[0]);
        assert(digit_val(a[0]) == v && digit_val(b[0]) == v);
        assert(a =~= b);
    } else {
        if a.len() == 1 {
            assert(a.last() == a[0]);
            assert(is_digit(a[0]));
            assert(digits_val(a.drop_last()) == 0);
            assert(false);
        }
        if b.len() == 1 {
            assert(b.last() == b[0]);
            assert(is_digit(b[0]));
            assert(digits_val(b.drop_last()) == 0);
            assert(false);
        }
        assert(a.len() > 1 && b.len() > 1);
        let a0 = a.drop_last();
        let b0 = b.drop_last();
        assert(forall|k: int| 0 <= k < a.len() - 1 ==> a0[k] == a[k]);
        assert(forall|k: int| 0 <= k < b.len() - 1 ==> b0[k] == b[k]);
        lemma_digits_val_nonneg(a0);
        lemma_digits_val_nonneg(b0);
        assert(digits_val(a0) == digits_val(b0) && digit_val(a.last()) == digit_val(b.last()));
        lemma_digits_unique(a0, b0);
        assert(a.last() == b.last());
        assert(a =~= b);
    }
}

/// Distinct names never denote the same workspace number: the canonical
/// decimal form of an integer is unique.
pub proof fn lemma_ws_id_injective(a: Seq<char>, b: Seq<char>)
    requires
        ws_id_of(a) is Some,
        ws_id_of(a) == ws_id_of(b),
    ensures
        a == b,
{
    let v = ws_id_of(a)->0;
    if canonical_digits(a) && digits_val(a) <= i32::MAX as int {
        lemma_digits_val_nonneg(a);
        if !(canonical_digits(b) && digits_val(b) <= i32::MAX as int) {
            lemma_digits_val_pos(b.skip(1));
            assert(false);
        }
        lemma_digits_unique(a, b);
    } else {
        lemma_digits_val_pos(a.skip(1));
        if canonical_digits(b) && digits_val(b) <= i32::MAX as int {
            lemma_digits_val_nonneg(b);
            assert(false);
        }
        lemma_digits_unique(a.skip(1), b.skip(1));
        assert(a[0] == b[0]);
        assert(forall|k: int| 1 <= k < a.len() ==> a.skip(1)[k - 1] == a[k]);
        assert(forall|k: int| 1 <= k < b.len() ==> b.skip(1)[k - 1] == b[k]);
        assert(a =~= b);
    }
}

/// Reads a workspace name as a number: `Some` exactly when the name is
/// the canonical decimal form of a value that fits a 32-bit integer.
pub fn parse_workspace_id(s: &str) -> (r: Option<i32>)
    ensures
        match r {
            Some(v) => ws_id_of(s@) == Some(v as int),
            None => ws_id_of(s@) is None,
        },
{
    let len = s.unicode_len();
    if len == 0 {
        return None;
    }
    let neg = s.get_char(0) == '-';
    let start: usize = if neg { 1 } else { 0 };
    if len == start {
        // a bare minus sign
        return None;
    }
    if len > start + 1 && s.get_char(start) == '0' {
        // a leading zero is not canonical
        return None;
    }
    if neg && s.get_char(1) == '0' {
        // minus zero is not canonical either
        return None;
    }
    let ghost digits = s@.skip(start as int);
    proof {
        assert(forall|k: int| 0 <= k < digits.len() ==> digits[k] == s@[k + start]);
    }
    let mut acc: i64 = 0;
    let mut i: usize = start;
    while i < len
        invariant
            len == s@.len(),
            start <= i <= len,
            start < len,
            neg ==> start == 1 && s@[0] == '-',
            !neg ==> start == 0 && s@[0] != '-',
            digits == s@.skip(start as int),
            forall|k: int| 0 <= k < digits.len() ==> digits[k] == s@[k + start],
            forall|k: int| start <= k < i ==> is_digit(#[trigger] s@[k]),
            acc == digits_val(s@.subrange(start as int, i as int)),
            0 <= acc <= 2147483648,
        decreases len - i,
    {
        let c = s.get_char(i);
        if c < '0' || c > '9' {
            // a non-digit: the name is not numeric at all
            proof {
                assert(!is_digit(s@[i as int]));
                if neg {
                    assert(digits[i - 1] == s@[i as int]);
                    assert(!is_digit(s@[0]));
                }
            }
            return None;
        }
        proof {
            assert(s@.subrange(start as int, i + 1).drop_last() =~= s@.subrange(
                start as int,
                i as int,
            ));
            assert(s@.subrange(start as int, i + 1).last() == s@[i as int]);
        }
        acc = acc * 10 + ((c as u32 - '0' as u32) as i64);
        i = i + 1;
        if acc > 2147483648 {
            // too large for a 32-bit integer, with or without the minus
            proof {
                let part = s@.subrange(start as int, i as int);
                assert(digits.take(i - start) =~= part);
                if all_digits(digits) {
                    lemma_digits_prefix_le(digits, i - start);
                    assert(digits.take(digits.len() as int) =~= digits);
                } else {
                    assert(!canonical_digits(digits));
                }
                if neg {
                    assert(!is_digit(s@[0]));
                } else {
                    assert(digits =~= s@);
                }
            }
            return None;
        }
    }
    proof {
        assert(s@.subrange(start as int, len as int) =~= digits);
        assert(canonical_digits(digits));
    }
    if neg {
        proof {
            assert(!is_digit(s@[0]));
            assert(digits[0] == s@[1]);
            lemma_digits_val_pos(digits);
        }
        if acc == 2147483648 {
            Some(i32::MIN)
        } else {
            Some(-(acc as i32))
        }
    } else {
        proof {
            assert(digits =~= s@);
        }
        if acc > 2147483647 {
            // 2^31 itself: fits only when negated
            return None;
        }
        Some(acc as i32)
    }
}

} // verus!
