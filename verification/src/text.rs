//! Byte-level facts about UTF-8 text: where lines begin, which line and column
//! an offset falls on, and sub-slicing of `str` at character boundaries.
use vstd::prelude::*;
use vstd::string::StringSliceAdditionalSpecFns;
use vstd::utf8::*;

verus! {

broadcast use vstd::seq::group_seq_axioms;

/// The largest byte length a source text may have: every column the
/// renderer computes (at most four per byte, plus a few) must fit in `usize`.
pub open spec fn text_fits(b: Seq<u8>) -> bool {
    b.len() <= usize::MAX / 8
}

/// Number of `\n` bytes among the first `n` bytes of `b`.
pub open spec fn newlines_before(b: Seq<u8>, n: int) -> nat
    decreases n,
{
    if n <= 0 {
        0
    } else if b[n - 1] == 10u8 {
        newlines_before(b, n - 1) + 1
    } else {
        newlines_before(b, n - 1)
    }
}

/// Offset at which the line holding byte offset `o` begins: just after the
/// last `\n` before `o`, or 0.
pub open spec fn line_begin(b: Seq<u8>, o: int) -> int
    decreases o,
{
    if o <= 0 {
        0
    } else if b[o - 1] == 10u8 {
        o
    } else {
        line_begin(b, o - 1)
    }
}

/// Offsets at which a line begins, among the first `n` bytes of `b`:
/// 0, then one past every `\n`.
pub open spec fn starts_upto(b: Seq<u8>, n: int) -> Seq<usize>
    decreases n,
{
    if n <= 0 {
        seq![0usize]
    } else if b[n - 1] == 10u8 {
        starts_upto(b, n - 1).push(n as usize)
    } else {
        starts_upto(b, n - 1)
    }
}

/// Offsets at which the lines of `b` begin.
pub open spec fn line_starts(b: Seq<u8>) -> Seq<usize> {
    starts_upto(b, b.len() as int)
}

/// The 1-based line and column of byte offset `o`, counting columns in
/// characters; `None` when `o` is past the end or inside a character.
pub open spec fn line_col_of(b: Seq<u8>, o: int) -> Option<(int, int)> {
    if 0 <= o <= b.len() && is_char_boundary(b, o) {
        Some(
            (
                (newlines_before(b, o) + 1) as int,
                (decode_utf8(b.subrange(line_begin(b, o), o)).len() + 1) as int,
            ),
        )
    } else {
        None
    }
}

/// Byte range of 1-based line `n` of `b`, without its terminating `\n`.
pub open spec fn line_range(b: Seq<u8>, n: int) -> (int, int) {
    let s = line_starts(b);
    (s[n - 1] as int, if n < s.len() { s[n] - 1 } else { b.len() as int })
}

/// Bytes of 1-based line `n`, if the text has that many lines.
pub open spec fn line_bytes(b: Seq<u8>, n: int) -> Option<Seq<u8>> {
    if 1 <= n <= line_starts(b).len() {
        Some(b.subrange(line_range(b, n).0, line_range(b, n).1))
    } else {
        None
    }
}

/// A prefix holds at most as many line breaks as bytes.
pub proof fn lemma_newlines_bound(b: Seq<u8>, n: int)
    ensures
        newlines_before(b, n) <= (if n > 0 { n } else { 0 }),
    decreases n,
{
    if n > 0 {
        lemma_newlines_bound(b, n - 1);
    }
}

pub proof fn lemma_starts_shape(b: Seq<u8>, n: int)
    requires
        0 <= n <= b.len(),
        b.len() <= usize::MAX,
    ensures
        starts_upto(b, n).len() == newlines_before(b, n) + 1,
        starts_upto(b, n)[0] == 0,
        starts_upto(b, n).last() == line_begin(b, n),
        0 <= line_begin(b, n) <= n,
        forall|i: int, j: int|
            0 <= i < j < starts_upto(b, n).len() ==> starts_upto(b, n)[i] < starts_upto(b, n)[j],
        forall|k: int|
            0 <= k < starts_upto(b, n).len() ==> {
                &&& #[trigger] starts_upto(b, n)[k] <= n
                &&& (k == 0 <==> starts_upto(b, n)[k] == 0)
                &&& (k > 0 ==> b[starts_upto(b, n)[k] - 1] == 10u8)
            },
    decreases n,
{
    if n > 0 {
        lemma_starts_shape(b, n - 1);
    }
}

pub proof fn lemma_starts_prefix(b: Seq<u8>, o: int, n: int)
    requires
        0 <= o <= n <= b.len(),
        b.len() <= usize::MAX,
    ensures
        starts_upto(b, o).len() <= starts_upto(b, n).len(),
        forall|k: int|
            0 <= k < starts_upto(b, o).len() ==> #[trigger] starts_upto(b, n)[k] == starts_upto(
                b,
                o,
            )[k],
        forall|k: int|
            starts_upto(b, o).len() <= k < starts_upto(b, n).len() ==> #[trigger] starts_upto(
                b,
                n,
            )[k] > o,
    decreases n - o,
{
    if n > o {
        lemma_starts_prefix(b, o, n - 1);
        lemma_starts_shape(b, n - 1);
    }
}

/// After a one-byte character at a boundary, the next offset is a boundary too.
pub proof fn lemma_boundary_after_ascii(b: Seq<u8>, i: int)
    requires
        valid_utf8(b),
        0 <= i < b.len(),
        b[i] < 0x80u8,
    ensures
        is_char_boundary(b, i),
        is_char_boundary(b, i + 1),
{
    is_char_boundary_iff_not_is_continuation_byte(b, i);
    if i + 1 == b.len() {
        is_char_boundary_start_end_of_seq(b);
    } else {
        valid_utf8_split(b, i);
        let t = b.subrange(i, b.len() as int);
        assert(t[0] == b[i]);
        assert(valid_first_scalar(t));
        assert(length_of_first_scalar(t) == 1);
        assert(pop_first_scalar(t) =~= b.subrange(i + 1, b.len() as int));
        let u = pop_first_scalar(t);
        assert(valid_utf8(u));
        assert(u.len() > 0);
        assert(valid_first_scalar(u));
        assert(u[0] == b[i + 1]);
        is_char_boundary_iff_not_is_continuation_byte(b, i + 1);
    }
}

/// Every line start, and every `\n`, lies on a character boundary.
pub proof fn lemma_line_start_boundary(b: Seq<u8>, k: int)
    requires
        valid_utf8(b),
        b.len() <= usize::MAX,
        0 <= k < line_starts(b).len(),
    ensures
        is_char_boundary(b, line_starts(b)[k] as int),
        k > 0 ==> is_char_boundary(b, line_starts(b)[k] - 1),
{
    lemma_starts_shape(b, b.len() as int);
    let s = line_starts(b);
    if k == 0 {
        is_char_boundary_start_end_of_seq(b);
    } else {
        lemma_boundary_after_ascii(b, s[k] - 1);
    }
}

/// The index of the line holding `o` among the line starts, and that start.
pub proof fn lemma_line_index(b: Seq<u8>, o: int)
    requires
        0 <= o <= b.len(),
        b.len() <= usize::MAX,
    ensures
        newlines_before(b, o) < line_starts(b).len(),
        line_starts(b)[newlines_before(b, o) as int] == line_begin(b, o),
        forall|k: int|
            0 <= k < line_starts(b).len() ==> (#[trigger] line_starts(b)[k] <= o <==> k
                <= newlines_before(b, o)),
{
    lemma_starts_shape(b, o);
    lemma_starts_shape(b, b.len() as int);
    lemma_starts_prefix(b, o, b.len() as int);
    let s = line_starts(b);
    let p = starts_upto(b, o);
    assert forall|k: int| 0 <= k < s.len() implies (#[trigger] s[k] <= o <==> k <= newlines_before(
        b,
        o,
    )) by {
        if k < p.len() {
            assert(s[k] == p[k]);
        }
    }
    assert(s[p.len() - 1] == p[p.len() - 1]);
}

/// A line lies within its text.
pub proof fn lemma_line_range(b: Seq<u8>, n: int)
    requires
        1 <= n <= line_starts(b).len(),
        b.len() <= usize::MAX,
    ensures
        0 <= line_range(b, n).0 <= line_range(b, n).1 <= b.len(),
        line_range(b, n).0 == line_starts(b)[n - 1],
{
    lemma_starts_shape(b, b.len() as int);
    if n < line_starts(b).len() {
        assert(line_starts(b)[n - 1] < line_starts(b)[n as int]);
    }
}

/// A decoded text has at most as many characters as bytes.
pub proof fn lemma_decode_len(b: Seq<u8>)
    requires
        valid_utf8(b),
    ensures
        decode_utf8(b).len() <= b.len(),
    decreases b.len(),
{
    if b.len() > 0 {
        let t = pop_first_scalar(b);
        assert(t.len() < b.len());
        lemma_decode_len(t);
    }
}

/// A boundary of a text is a boundary of any boundary-delimited slice holding it.
pub proof fn lemma_boundary_in_slice(b: Seq<u8>, from: int, to: int, i: int)
    requires
        valid_utf8(b),
        0 <= from <= i <= to <= b.len(),
        is_char_boundary(b, from),
        is_char_boundary(b, to),
        is_char_boundary(b, i),
    ensures
        valid_utf8(b.subrange(from, to)),
        is_char_boundary(b.subrange(from, to), i - from),
{
    valid_utf8_split(b, to);
    let p = b.subrange(0, to);
    if from < to {
        is_char_boundary_iff_not_is_continuation_byte(p, from);
        assert(p[from] == b[from]);
        is_char_boundary_iff_not_is_continuation_byte(b, from);
    } else {
        is_char_boundary_start_end_of_seq(p);
    }
    valid_utf8_split(p, from);
    assert(p.subrange(from, p.len() as int) =~= b.subrange(from, to));
    let q = b.subrange(from, to);
    is_char_boundary_start_end_of_seq(q);
    if i < to && i > from {
        is_char_boundary_iff_not_is_continuation_byte(b, i);
        is_char_boundary_iff_not_is_continuation_byte(q, i - from);
        assert(q[i - from] == b[i]);
    }
}

/// Whether two strings hold the same text.
pub fn str_eq(a: &str, b: &str) -> (r: bool)
    ensures
        r == (a@ == b@),
{
    let x = a.as_bytes();
    let y = b.as_bytes();
    proof {
        encode_utf8_decode_utf8(a@);
        encode_utf8_decode_utf8(b@);
    }
    if x.len() != y.len() {
        return false;
    }
    let mut i: usize = 0;
    while i < x.len()
        invariant
            x@ == a.spec_bytes(),
            y@ == b.spec_bytes(),
            x@.len() == y@.len(),
            i <= x@.len(),
            forall|j: int| 0 <= j < i ==> #[trigger] x@[j] == y@[j],
        decreases x@.len() - i,
    {
        if x[i] != y[i] {
            return false;
        }
        i += 1;
    }
    assert(x@ =~= y@);
    true
}

/// The slice of `s` between two character boundaries.
pub fn substr(s: &str, from: usize, to: usize) -> (r: &str)
    requires
        from <= to <= s.spec_bytes().len(),
        is_char_boundary(s.spec_bytes(), from as int),
        is_char_boundary(s.spec_bytes(), to as int),
    ensures
        r.spec_bytes() == s.spec_bytes().subrange(from as int, to as int),
        r@ == decode_utf8(s.spec_bytes().subrange(from as int, to as int)),
{
    let ghost b = s.spec_bytes();
    proof {
        encode_utf8_valid_utf8(s@);
        lemma_boundary_in_slice(b, 0, to as int, from as int);
        is_char_boundary_start_end_of_seq(b);
        assert(b.subrange(0, to as int).subrange(0, to as int) =~= b.subrange(0, to as int));
    }
    let (head, _) = s.split_at(to);
    let (_, mid) = head.split_at(from);
    proof {
        assert(mid.spec_bytes() =~= b.subrange(from as int, to as int));
        encode_utf8_decode_utf8(mid@);
    }
    mid
}

} // verus!
