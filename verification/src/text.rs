//! Verified helpers for looking at symbol text: character classes, decimal
//! numbers, equality, and the block-name pattern of the layout grammar.

use vstd::prelude::*;
use vstd::string::StrSliceExecFns;

verus! {

/// ASCII decimal digit.
pub open spec fn is_digit_char(c: char) -> bool {
    48 <= c as u32 <= 57
}

/// Numeric value of an ASCII digit.
pub open spec fn digit_val(c: char) -> int {
    c as u32 - 48
}

/// ASCII letter.
pub open spec fn is_alpha_char(c: char) -> bool {
    (65 <= c as u32 <= 90) || (97 <= c as u32 <= 122)
}

/// ASCII letter or digit.
pub open spec fn is_alnum_char(c: char) -> bool {
    is_alpha_char(c) || is_digit_char(c)
}

pub open spec fn all_digits(s: Seq<char>) -> bool {
    forall|i: int| 0 <= i < s.len() ==> is_digit_char(s[i])
}

pub open spec fn all_alpha(s: Seq<char>) -> bool {
    forall|i: int| 0 <= i < s.len() ==> is_alpha_char(s[i])
}

/// Value of a digit string read as a decimal number.
pub open spec fn digits_val(s: Seq<char>) -> int
    decreases s.len(),
{
    if s.len() == 0 {
        0
    } else {
        digits_val(s.drop_last()) * 10 + digit_val(s.last())
    }
}

/// A non-empty, all-digit string parses to its decimal value; anything
/// else does not parse.
pub open spec fn parse_uint(s: Seq<char>) -> Option<int> {
    if s.len() > 0 && all_digits(s) {
        Some(digits_val(s))
    } else {
        None
    }
}

/// Like [`parse_uint`], but fails on values above `usize::MAX`, as the
/// machine-sized parse does.
pub open spec fn parse_usize(s: Seq<char>) -> Option<int> {
    match parse_uint(s) {
        Some(v) => if v <= usize::MAX {
            Some(v)
        } else {
            None
        },
        None => None,
    }
}

pub proof fn lemma_digits_val_nonneg(s: Seq<char>)
    requires
        all_digits(s),
    ensures
        digits_val(s) >= 0,
    decreases s.len(),
{
    if s.len() > 0 {
        assert(all_digits(s.drop_last())) by {
            assert(forall|i: int|
                0 <= i < s.drop_last().len() ==> s.drop_last()[i] == s[i] && is_digit_char(s[i]));
        }
        lemma_digits_val_nonneg(s.drop_last());
    }
}

/// Reading more digits never makes the value smaller.
pub proof fn lemma_digits_val_prefix(s: Seq<char>, i: int, j: int)
    requires
        all_digits(s),
        0 <= i <= j <= s.len(),
    ensures
        digits_val(s.subrange(0, i)) <= digits_val(s.subrange(0, j)),
    decreases j - i,
{
    if i < j {
        lemma_digits_val_prefix(s, i, j - 1);
        let p = s.subrange(0, j);
        assert(p.drop_last() =~= s.subrange(0, j - 1));
        assert(all_digits(s.subrange(0, j - 1))) by {
            assert(forall|k: int|
                0 <= k < j - 1 ==> s.subrange(0, j - 1)[k] == s[k] && is_digit_char(s[k]));
        }
        lemma_digits_val_nonneg(s.subrange(0, j - 1));
        assert(digits_val(p) == digits_val(s.subrange(0, j - 1)) * 10 + digit_val(p.last()));
        assert(digits_val(s.subrange(0, j - 1)) * 10 >= digits_val(s.subrange(0, j - 1))) by {
            assert(digits_val(s.subrange(0, j - 1)) >= 0);
        }
    }
}

/// A parsed number is a machine-sized natural.
pub proof fn lemma_parse_usize_range(s: Seq<char>)
    ensures
        parse_usize(s) is Some ==> 0 <= parse_usize(s)->0 <= usize::MAX,
{
    if s.len() > 0 && all_digits(s) {
        lemma_digits_val_nonneg(s);
    }
}

/// Index of the first occurrence of `c`, if any.
pub open spec fn first_idx_of(s: Seq<char>, c: char) -> Option<int>
    decreases s.len(),
{
    if s.len() == 0 {
        None
    } else if s[0] == c {
        Some(0)
    } else {
        match first_idx_of(s.drop_first(), c) {
            Some(i) => Some(i + 1),
            None => None,
        }
    }
}

pub proof fn lemma_first_idx_of(s: Seq<char>, c: char)
    ensures
        match first_idx_of(s, c) {
            None => forall|j: int| 0 <= j < s.len() ==> s[j] != c,
            Some(i) => 0 <= i < s.len() && s[i] == c && forall|j: int| 0 <= j < i ==> s[j] != c,
        },
    decreases s.len(),
{
    if s.len() > 0 && s[0] != c {
        let rest = s.drop_first();
        lemma_first_idx_of(rest, c);
        assert(forall|j: int| 0 <= j < rest.len() ==> rest[j] == #[trigger] s[j + 1]);
        match first_idx_of(rest, c) {
            None => {
                assert forall|j: int| 0 <= j < s.len() implies s[j] != c by {
                    if j > 0 {
                        assert(rest[j - 1] == s[j]);
                    }
                }
            },
            Some(i) => {
                assert(s[i + 1] == rest[i]);
                assert forall|j: int| 0 <= j < i + 1 implies s[j] != c by {
                    if j > 0 {
                        assert(rest[j - 1] == s[j]);
                    }
                }
            },
        }
    }
}

/// Whether `pat` occurs in `s` starting at index `i`.
pub open spec fn seq_at(s: Seq<char>, i: int, pat: Seq<char>) -> bool {
    0 <= i && i + pat.len() <= s.len() && s.subrange(i, i + pat.len()) == pat
}

/// All characters from index `i` on are digits.
pub open spec fn digits_from(s: Seq<char>, i: int) -> bool {
    forall|j: int| i <= j < s.len() ==> is_digit_char(s[j])
}

/// All characters before index `i` are letters or digits.
pub open spec fn alnum_to(s: Seq<char>, i: int) -> bool {
    forall|j: int| 0 <= j < i ==> is_alnum_char(s[j])
}

/// A block name splits as alphanumeric prefix, then `InBlock` or
/// `OutBlock`, then a digit suffix.
pub open spec fn valid_block_split(s: Seq<char>, i: int) -> bool {
    alnum_to(s, i) && ((seq_at(s, i, "InBlock"@) && digits_from(s, i + "InBlock"@.len())) || (
    seq_at(s, i, "OutBlock"@) && digits_from(s, i + "OutBlock"@.len())))
}

/// The block-name pattern of the grammar.
pub open spec fn valid_block_name(s: Seq<char>) -> bool {
    exists|i: int| 0 <= i <= s.len() && valid_block_split(s, i)
}

/// What field decoding strips from both ends of a value: control
/// characters and the space.
pub open spec fn is_trim_char(c: char) -> bool {
    (c as u32) < 0x20 || c == ' '
}

/// First index at or after `i` that does not hold a trimmed character.
pub open spec fn trim_start_idx(s: Seq<char>, i: int) -> int
    decreases s.len() - i,
{
    if 0 <= i < s.len() && is_trim_char(s[i]) {
        trim_start_idx(s, i + 1)
    } else {
        i
    }
}

/// Largest end index at or below `e` with no trimmed character just
/// before it.
pub open spec fn trim_end_idx(s: Seq<char>, e: int) -> int
    decreases e,
{
    if 0 < e <= s.len() && is_trim_char(s[e - 1]) {
        trim_end_idx(s, e - 1)
    } else {
        e
    }
}

/// The value with control characters and spaces stripped from both ends.
pub open spec fn trim_chars(s: Seq<char>) -> Seq<char> {
    let a = trim_start_idx(s, 0);
    let b = trim_end_idx(s, s.len() as int);
    if a <= b {
        s.subrange(a, b)
    } else {
        Seq::empty()
    }
}

/// Trimmed-character test on one character.
pub fn is_trim(c: char) -> (b: bool)
    ensures
        b == is_trim_char(c),
{
    (c as u32) < 0x20 || c == ' '
}

/// Strips control characters and spaces from both ends of `t`.
pub fn trim_value(t: &str) -> (r: String)
    ensures
        r@ == trim_chars(t@),
{
    let n = t.unicode_len();
    let mut a: usize = 0;
    while a < n && is_trim(t.get_char(a))
        invariant
            n == t@.len(),
            a <= n,
            trim_start_idx(t@, a as int) == trim_start_idx(t@, 0),
        decreases n - a,
    {
        a = a + 1;
    }
    assert(trim_start_idx(t@, 0) == a as int);
    let mut b: usize = n;
    while b > 0 && is_trim(t.get_char(b - 1))
        invariant
            n == t@.len(),
            b <= n,
            trim_end_idx(t@, b as int) == trim_end_idx(t@, n as int),
        decreases b,
    {
        b = b - 1;
    }
    assert(trim_end_idx(t@, n as int) == b as int);
    if a <= b {
        t.substring_char(a, b).to_owned()
    } else {
        let r = String::new();
        assert(r@ =~= trim_chars(t@));
        r
    }
}

/// Decimal digit test on one character.
pub fn is_digit(c: char) -> (b: bool)
    ensures
        b == is_digit_char(c),
{
    let v = c as u32;
    48 <= v && v <= 57
}

/// ASCII letter test on one character.
pub fn is_alpha(c: char) -> (b: bool)
    ensures
        b == is_alpha_char(c),
{
    let v = c as u32;
    (65 <= v && v <= 90) || (97 <= v && v <= 122)
}

/// Character-wise string equality.
pub fn str_eq(a: &str, b: &str) -> (r: bool)
    ensures
        r == (a@ == b@),
{
    let an = a.unicode_len();
    let bn = b.unicode_len();
    if an != bn {
        return false;
    }
    let mut i: usize = 0;
    while i < an
        invariant
            an == a@.len(),
            an == b@.len(),
            i <= an,
            forall|j: int| 0 <= j < i ==> a@[j] == b@[j],
        decreases an - i,
    {
        if a.get_char(i) != b.get_char(i) {
            return false;
        }
        i = i + 1;
    }
    proof {
        assert(a@ =~= b@);
    }
    true
}

/// All characters of `t` are ASCII letters.
pub fn all_alpha_x(t: &str) -> (r: bool)
    ensures
        r == all_alpha(t@),
{
    let n = t.unicode_len();
    let mut i: usize = 0;
    while i < n
        invariant
            n == t@.len(),
            i <= n,
            forall|j: int| 0 <= j < i ==> is_alpha_char(t@[j]),
        decreases n - i,
    {
        if !is_alpha(t.get_char(i)) {
            return false;
        }
        i = i + 1;
    }
    true
}

/// Index of the first occurrence of `c` in `t`, if any.
pub fn find_char(t: &str, c: char) -> (r: Option<usize>)
    ensures
        match first_idx_of(t@, c) {
            None => r is None,
            Some(i) => r == Some(i as usize),
        },
{
    proof {
        lemma_first_idx_of(t@, c);
    }
    let n = t.unicode_len();
    let mut i: usize = 0;
    while i < n
        invariant
            n == t@.len(),
            i <= n,
            forall|j: int| 0 <= j < i ==> t@[j] != c,
        decreases n - i,
    {
        if t.get_char(i) == c {
            proof {
                lemma_first_idx_of(t@, c);
            }
            return Some(i);
        }
        i = i + 1;
    }
    None
}

/// Parses `t` as a decimal `usize`; fails on the empty string, on any
/// non-digit, and on values above `usize::MAX`.
pub fn parse_usize_x(t: &str) -> (r: Option<usize>)
    ensures
        match parse_usize(t@) {
            None => r is None,
            Some(v) => r == Some(v as usize),
        },
{
    let n = t.unicode_len();
    if n == 0 {
        return None;
    }
    let mut acc: usize = 0;
    let mut i: usize = 0;
    while i < n
        invariant
            n == t@.len(),
            0 < n,
            i <= n,
            all_digits(t@.subrange(0, i as int)),
            acc == digits_val(t@.subrange(0, i as int)),
        decreases n - i,
    {
        let c = t.get_char(i);
        if !is_digit(c) {
            assert(!all_digits(t@));
            return None;
        }
        let d = (c as u32 - 48) as usize;
        let limit = (usize::MAX - d) / 10;
        if acc > limit {
            // The value no longer fits; with every further digit it can
            // only grow.
            proof {
                let p = t@.subrange(0, i + 1);
                assert(p.drop_last() =~= t@.subrange(0, i as int));
                assert(digits_val(p) == acc * 10 + d);
                assert(acc * 10 + d > usize::MAX) by (nonlinear_arith)
                    requires
                        acc > (usize::MAX - d) / 10,
                        d <= 9,
                        acc >= 0,
                ;
                if all_digits(t@) {
                    lemma_digits_val_prefix(t@, i + 1, n as int);
                    assert(t@.subrange(0, n as int) =~= t@);
                }
            }
            return None;
        }
        proof {
            assert(acc * 10 + d <= usize::MAX) by (nonlinear_arith)
                requires
                    acc <= (usize::MAX - d) / 10,
                    d <= 9,
                    acc >= 0,
            ;
            let p = t@.subrange(0, i + 1);
            assert(p.drop_last() =~= t@.subrange(0, i as int));
            assert(p.last() == t@[i as int]);
            assert(all_digits(p)) by {
                assert(forall|j: int| 0 <= j < i + 1 ==> p[j] == t@[j]);
            }
        }
        acc = acc * 10 + d;
        i = i + 1;
    }
    proof {
        assert(t@.subrange(0, n as int) =~= t@);
    }
    Some(acc)
}

/// Whether `t` is a non-empty string of digits, so that [`parse_uint`]
/// accepts it.
pub fn is_uint_x(t: &str) -> (r: bool)
    ensures
        r == (parse_uint(t@) is Some),
{
    let n = t.unicode_len();
    if n == 0 {
        return false;
    }
    let mut i: usize = 0;
    while i < n
        invariant
            n == t@.len(),
            i <= n,
            forall|j: int| 0 <= j < i ==> is_digit_char(t@[j]),
        decreases n - i,
    {
        if !is_digit(t.get_char(i)) {
            assert(!all_digits(t@));
            return false;
        }
        i = i + 1;
    }
    true
}

/// Whether `pat` occurs in `t` starting at character index `i`.
fn seq_at_x(t: &str, i: usize, pat: &str) -> (r: bool)
    requires
        t@.len() <= usize::MAX - 16,
        pat@.len() <= 16,
    ensures
        r == seq_at(t@, i as int, pat@),
{
    let n = t.unicode_len();
    let pn = pat.unicode_len();
    if i > n || pn > n - i {
        return false;
    }
    let mut k: usize = 0;
    while k < pn
        invariant
            n == t@.len(),
            pn == pat@.len(),
            i + pn <= n,
            k <= pn,
            forall|j: int| 0 <= j < k ==> t@[i + j] == pat@[j],
        decreases pn - k,
    {
        if t.get_char(i + k) != pat.get_char(k) {
            assert(t@.subrange(i as int, i + pn) != pat@) by {
                assert(t@.subrange(i as int, i + pn)[k as int] == t@[i + k]);
            }
            return false;
        }
        k = k + 1;
    }
    proof {
        assert(t@.subrange(i as int, i + pn) =~= pat@);
    }
    true
}

/// All characters of `t` from index `i` on are digits.
fn digits_from_x(t: &str, i: usize) -> (r: bool)
    ensures
        r == digits_from(t@, i as int),
{
    let n = t.unicode_len();
    let mut k: usize = i;
    if i >= n {
        return true;
    }
    while k < n
        invariant
            n == t@.len(),
            i <= k <= n,
            forall|j: int| i <= j < k ==> is_digit_char(t@[j]),
        decreases n - k,
    {
        if !is_digit(t.get_char(k)) {
            return false;
        }
        k = k + 1;
    }
    true
}

/// Checks `t` against the block-name pattern: an alphanumeric prefix,
/// `InBlock` or `OutBlock`, and a digit suffix.
pub fn check_block_name(t: &str) -> (r: bool)
    requires
        t@.len() <= usize::MAX - 16,
    ensures
        r == valid_block_name(t@),
{
    let n = t.unicode_len();
    let mut i: usize = 0;
    loop
        invariant
            n == t@.len(),
            n <= usize::MAX - 16,
            i <= n,
            alnum_to(t@, i as int),
            forall|k: int| 0 <= k < i ==> !valid_block_split(t@, k),
        decreases n - i,
    {
        proof {
            reveal_strlit("InBlock");
            reveal_strlit("OutBlock");
        }
        let in_here = seq_at_x(t, i, "InBlock") && digits_from_x(t, i + 7);
        let out_here = seq_at_x(t, i, "OutBlock") && digits_from_x(t, i + 8);
        if in_here || out_here {
            assert(valid_block_split(t@, i as int));
            return true;
        }
        assert(!valid_block_split(t@, i as int));
        if i == n {
            return false;
        }
        if !is_alpha(t.get_char(i)) && !is_digit(t.get_char(i)) {
            // Every later split would need this character in its
            // alphanumeric prefix.
            assert(forall|k: int| i < k <= n ==> !alnum_to(t@, k));
            return false;
        }
        i = i + 1;
    }
}

/// Parses a signed decimal number in the 32-bit range: an optional sign,
/// then digits.
pub open spec fn parse_i32(s: Seq<char>) -> Option<int> {
    if s.len() > 0 && (s[0] == '+' || s[0] == '-') {
        match parse_uint(s.subrange(1, s.len() as int)) {
            Some(v) => if s[0] == '-' {
                if v <= 0x8000_0000 {
                    Some(-v)
                } else {
                    None
                }
            } else {
                if v <= 0x7fff_ffff {
                    Some(v)
                } else {
                    None
                }
            },
            None => None,
        }
    } else {
        match parse_uint(s) {
            Some(v) => if v <= 0x7fff_ffff {
                Some(v)
            } else {
                None
            },
            None => None,
        }
    }
}

/// Parses `t` as a signed 32-bit decimal number.
pub fn parse_i32_x(t: &str) -> (r: Option<i32>)
    ensures
        match parse_i32(t@) {
            None => r is None,
            Some(v) => r == Some(v as i32) && -0x8000_0000 <= v <= 0x7fff_ffff,
        },
{
    let n = t.unicode_len();
    if n == 0 {
        return None;
    }
    let c0 = t.get_char(0);
    if c0 == '+' || c0 == '-' {
        let rest = t.substring_char(1, n);
        let ghost rs = t@.subrange(1, t@.len() as int);
        proof {
            lemma_parse_usize_range(rs);
            if parse_usize(rs) is None && parse_uint(rs) is Some {
                lemma_digits_val_nonneg(rs);
            }
        }
        match parse_usize_x(rest) {
            None => None,
            Some(v) => {
                if c0 == '-' {
                    if v <= 0x7fff_ffff {
                        Some(0i32 - (v as i32))
                    } else if v == 0x8000_0000 {
                        Some(i32::MIN)
                    } else {
                        None
                    }
                } else {
                    if v <= 0x7fff_ffff {
                        Some(v as i32)
                    } else {
                        None
                    }
                }
            },
        }
    } else {
        proof {
            lemma_parse_usize_range(t@);
            if parse_usize(t@) is None && parse_uint(t@) is Some {
                lemma_digits_val_nonneg(t@);
            }
        }
        match parse_usize_x(t) {
            None => None,
            Some(v) => if v <= 0x7fff_ffff {
                Some(v as i32)
            } else {
                None
            },
        }
    }
}

} // verus!
