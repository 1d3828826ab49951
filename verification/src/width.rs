//! How many terminal columns characters and strings take, and how many
//! digits a line number has.
use vstd::prelude::*;
use vstd::arithmetic::power::pow;
use vstd::string::StringSliceAdditionalSpecFns;
use vstd::utf8::{decode_utf8, encode_utf8_valid_utf8, is_char_boundary, is_char_boundary_start_end_of_seq};

use crate::text::{lemma_boundary_in_slice, lemma_decode_len, substr};

verus! {

/// Columns a tab advances by.
pub const TAB_WIDTH: usize = 4;

/// Combining marks, the zero width joiner and variation selectors take no column.
pub open spec fn zero_width(c: char) -> bool {
    let u = c as u32;
    ||| 0x0300 <= u <= 0x036F
    ||| 0x1AB0 <= u <= 0x1AFF
    ||| 0x1DC0 <= u <= 0x1DFF
    ||| 0x20D0 <= u <= 0x20FF
    ||| 0xFE20 <= u <= 0xFE2F
    ||| u == 0x200D
    ||| 0xFE0E <= u <= 0xFE0F
}

/// East Asian wide characters and emoji take two columns.
pub open spec fn wide(c: char) -> bool {
    let u = c as u32;
    ||| 0x1100 <= u <= 0x115F
    ||| 0x2329 <= u <= 0x232A
    ||| 0x2E80 <= u <= 0xA4CF
    ||| 0xAC00 <= u <= 0xD7A3
    ||| 0xF900 <= u <= 0xFAFF
    ||| 0xFE10 <= u <= 0xFE19
    ||| 0xFE30 <= u <= 0xFE6F
    ||| 0xFF00 <= u <= 0xFF60
    ||| 0xFFE0 <= u <= 0xFFE6
    ||| 0x1F300 <= u <= 0x1FAFF
}

/// Columns one character takes.
pub open spec fn char_width(c: char) -> nat {
    if c == '\t' {
        TAB_WIDTH as nat
    } else if zero_width(c) {
        0
    } else if wide(c) {
        2
    } else {
        1
    }
}

/// Columns a sequence of characters takes.
pub open spec fn str_width(cs: Seq<char>) -> nat
    decreases cs.len(),
{
    if cs.len() == 0 {
        0
    } else {
        str_width(cs.drop_last()) + char_width(cs.last())
    }
}

/// The 1-based display column at which byte offset `o` of a line starts;
/// `None` when `o` is past the end or inside a character.
pub open spec fn display_col_of(b: Seq<u8>, o: int) -> Option<nat> {
    if 0 <= o <= b.len() && is_char_boundary(b, o) {
        Some(1 + str_width(decode_utf8(b.subrange(0, o))))
    } else {
        None
    }
}

/// The decimal digit `d`.
pub open spec fn digit(d: nat) -> char {
    if d == 0 {
        '0'
    } else if d == 1 {
        '1'
    } else if d == 2 {
        '2'
    } else if d == 3 {
        '3'
    } else if d == 4 {
        '4'
    } else if d == 5 {
        '5'
    } else if d == 6 {
        '6'
    } else if d == 7 {
        '7'
    } else if d == 8 {
        '8'
    } else {
        '9'
    }
}

/// The decimal notation of `n`.
pub open spec fn decimal(n: nat) -> Seq<char>
    decreases n,
{
    if n < 10 {
        seq![digit(n)]
    } else {
        decimal(n / 10).push(digit(n % 10))
    }
}

pub proof fn lemma_str_width_bound(cs: Seq<char>)
    ensures
        str_width(cs) <= 4 * cs.len(),
    decreases cs.len(),
{
    if cs.len() > 0 {
        lemma_str_width_bound(cs.drop_last());
    }
}

pub proof fn lemma_str_width_concat(a: Seq<char>, b: Seq<char>)
    ensures
        str_width(a + b) == str_width(a) + str_width(b),
    decreases b.len(),
{
    if b.len() == 0 {
        assert(a + b =~= a);
    } else {
        lemma_str_width_concat(a, b.drop_last());
        assert((a + b).drop_last() =~= a + b.drop_last());
    }
}

pub fn is_zero_width(ch: char) -> (r: bool)
    ensures
        r == zero_width(ch),
{
    let u = ch as u32;
    (0x0300 <= u && u <= 0x036F) || (0x1AB0 <= u && u <= 0x1AFF) || (0x1DC0 <= u && u <= 0x1DFF)
        || (0x20D0 <= u && u <= 0x20FF) || (0xFE20 <= u && u <= 0xFE2F) || u == 0x200D || (0xFE0E
        <= u && u <= 0xFE0F)
}

pub fn is_wide(ch: char) -> (r: bool)
    ensures
        r == wide(ch),
{
    let u = ch as u32;
    (0x1100 <= u && u <= 0x115F) || (0x2329 <= u && u <= 0x232A) || (0x2E80 <= u && u <= 0xA4CF)
        || (0xAC00 <= u && u <= 0xD7A3) || (0xF900 <= u && u <= 0xFAFF) || (0xFE10 <= u && u
        <= 0xFE19) || (0xFE30 <= u && u <= 0xFE6F) || (0xFF00 <= u && u <= 0xFF60) || (0xFFE0
        <= u && u <= 0xFFE6) || (0x1F300 <= u && u <= 0x1FAFF)
}

pub fn display_width(ch: char) -> (r: usize)
    ensures
        r == char_width(ch),
{
    if ch == '\t' {
        return TAB_WIDTH;
    }
    if is_zero_width(ch) {
        return 0;
    }
    if is_wide(ch) {
        2
    } else {
        1
    }
}

/// Columns `text` takes.
pub fn display_str_width(text: &str) -> (r: usize)
    requires
        str_width(text@) <= usize::MAX,
    ensures
        r == str_width(text@),
{
    let mut total: usize = 0;
    for ch in it: text.chars()
        invariant
            it.seq() == text@,
            str_width(text@) <= usize::MAX,
            total == str_width(text@.take(it.index() as int)),
    {
        proof {
            let i = it.index() as int;
            assert(text@.take(i + 1).drop_last() =~= text@.take(i));
            lemma_str_width_concat(text@.take(i + 1), text@.skip(i + 1));
            assert(text@.take(i + 1) + text@.skip(i + 1) =~= text@);
        }
        total = total + display_width(ch);
    }
    proof {
        assert(text@.take(text@.len() as int) =~= text@);
    }
    total
}

/// Whether `text` takes at most `limit` columns.
pub fn display_width_at_most(text: &str, limit: usize) -> (r: bool)
    ensures
        r == (str_width(text@) <= limit),
{
    let mut total: usize = 0;
    for ch in it: text.chars()
        invariant
            it.seq() == text@,
            total <= limit,
            total == str_width(text@.take(it.index() as int)),
    {
        proof {
            let i = it.index() as int;
            assert(text@.take(i + 1).drop_last() =~= text@.take(i));
        }
        let w = display_width(ch);
        if w > limit - total {
            proof {
                let i = it.index() as int;
                lemma_str_width_concat(text@.take(i + 1), text@.skip(i + 1));
                assert(text@.take(i + 1) + text@.skip(i + 1) =~= text@);
            }
            return false;
        }
        total = total + w;
    }
    proof {
        assert(text@.take(text@.len() as int) =~= text@);
    }
    true
}

/// The display column at which byte offset `byte_offset` of `line` starts.
pub fn display_col(line: &str, byte_offset: usize) -> (r: Option<usize>)
    requires
        line.spec_bytes().len() <= usize::MAX / 8,
    ensures
        match r {
            Some(c) => display_col_of(line.spec_bytes(), byte_offset as int) == Some(c as nat)
                && c <= 4 * line.spec_bytes().len() + 1,
            None => display_col_of(line.spec_bytes(), byte_offset as int) is None,
        },
{
    let ghost b = line.spec_bytes();
    if byte_offset > line.as_bytes().len() || !line.is_char_boundary(byte_offset) {
        return None;
    }
    proof {
        encode_utf8_valid_utf8(line@);
        is_char_boundary_start_end_of_seq(b);
        lemma_boundary_in_slice(b, 0, byte_offset as int, byte_offset as int);
        lemma_decode_len(b.subrange(0, byte_offset as int));
        lemma_str_width_bound(decode_utf8(b.subrange(0, byte_offset as int)));
    }
    let head = substr(line, 0, byte_offset);
    let width = display_str_width(head);
    Some(width + 1)
}

/// Number of decimal digits of `value`.
pub fn decimal_width(value: usize) -> (r: usize)
    ensures
        r == decimal(value as nat).len(),
{
    let mut value = value;
    let mut width: usize = 1;
    let ghost orig = value as nat;
    proof {
        lemma_decimal_len(orig);
    }
    while value >= 10
        invariant
            decimal(orig).len() == (width - 1) + decimal(value as nat).len(),
            decimal(orig).len() <= usize::MAX,
            1 <= width,
        decreases value,
    {
        proof {
            lemma_decimal_len(value as nat / 10);
        }
        value = value / 10;
        width = width + 1;
    }
    width
}

/// A number has at least one digit, and no more digits than its value.
pub proof fn lemma_decimal_len(n: nat)
    ensures
        1 <= decimal(n).len(),
        n >= 1 ==> decimal(n).len() <= n,
    decreases n,
{
    if n >= 10 {
        lemma_decimal_len(n / 10);
    }
}

/// A number has one digit exactly when it is below ten, and `k` digits
/// exactly when it lies in `[10^(k-1), 10^k)`.
pub proof fn law_decimal_digits(n: nat)
    ensures
        n < 10 <==> decimal(n).len() == 1,
        decimal(n).len() == 1 || pow(10, (decimal(n).len() - 1) as nat) <= n,
        n < pow(10, decimal(n).len() as nat),
    decreases n,
{
    reveal(pow);
    lemma_decimal_len(n);
    if n < 10 {
        assert(pow(10, 0) == 1);
        assert(pow(10, 1) == 10 * pow(10, 0));
    } else {
        let q = n / 10;
        law_decimal_digits(q);
        lemma_decimal_len(q);
        let k1 = decimal(q).len();
        let p1 = pow(10, k1 as nat);
        assert(decimal(n).len() == k1 + 1);
        assert(pow(10, (k1 + 1) as nat) == 10 * p1);
        assert(n < 10 * p1) by (nonlinear_arith)
            requires
                q == n / 10,
                q < p1,
                n >= 0,
        ;
        if k1 == 1 {
            assert(pow(10, 1) == 10 * pow(10, 0));
            assert(pow(10, 0) == 1);
        } else {
            let p0 = pow(10, (k1 - 1) as nat);
            assert(p1 == 10 * p0);
            assert(p1 <= n) by (nonlinear_arith)
                requires
                    q == n / 10,
                    p0 <= q,
                    p1 == 10 * p0,
                    n >= 0,
            ;
        }
    }
}

} // verus!
