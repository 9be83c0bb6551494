//! Line arithmetic and small string operations over decoded source text.
use vstd::prelude::*;
use vstd::string::StringSliceAdditionalSpecFns;
use vstd::string::StrSliceExecFns;
use vstd::utf8::*;

verus! {

/// The number of newline bytes in `b`.
pub open spec fn count_newlines(b: Seq<u8>) -> nat
    decreases b.len(),
{
    if b.len() == 0 {
        0
    } else {
        count_newlines(b.drop_last()) + if b.last() == 10u8 {
            1nat
        } else {
            0nat
        }
    }
}

/// Zero-based line that holds byte `index` of `b`: the newlines before it.
pub open spec fn line_of(b: Seq<u8>, index: int) -> nat {
    if index >= b.len() {
        count_newlines(b)
    } else if index <= 0 {
        0
    } else {
        count_newlines(b.subrange(0, index))
    }
}

proof fn lemma_count_step(b: Seq<u8>, i: int)
    requires
        0 <= i < b.len(),
    ensures
        count_newlines(b.subrange(0, i + 1)) == count_newlines(b.subrange(0, i)) + if b[i]
            == 10u8 {
            1nat
        } else {
            0nat
        },
{
    assert(b.subrange(0, i + 1).drop_last() =~= b.subrange(0, i));
}

/// Zero-based line of the byte offset `index` in `text`: the number of newlines before it.
pub fn get_line_for(index: usize, text: &str) -> (r: usize)
    ensures
        r == line_of(text.spec_bytes(), index as int),
{
    let b = text.as_bytes();
    let n = if index < b.len() {
        index
    } else {
        b.len()
    };
    let mut line: usize = 0;
    let mut i: usize = 0;
    while i < n
        invariant
            b@ == text.spec_bytes(),
            n <= b@.len(),
            i <= n,
            line == count_newlines(b@.subrange(0, i as int)),
            line <= i,
        decreases n - i,
    {
        proof {
            lemma_count_step(b@, i as int);
        }
        if b[i] == 10u8 {
            line = line + 1;
        }
        i = i + 1;
    }
    proof {
        if n == b@.len() {
            assert(b@.subrange(0, n as int) =~= b@);
        }
    }
    line
}


/// Whether `needle` occurs as a contiguous run of `hay`.
pub open spec fn occurs_in(needle: Seq<char>, hay: Seq<char>) -> bool {
    exists|i: int|
        0 <= i && i + needle.len() <= hay.len() && #[trigger] hay.subrange(i, i + needle.len())
            == needle
}

/// Whether `a` and `b` hold the same text.
pub fn same_text(a: &str, b: &str) -> (r: bool)
    ensures
        r == (a@ == b@),
{
    let n = a.unicode_len();
    if n != b.unicode_len() {
        return false;
    }
    let mut i: usize = 0;
    while i < n
        invariant
            n == a@.len(),
            n == b@.len(),
            i <= n,
            forall|j: int| 0 <= j < i ==> a@[j] == b@[j],
        decreases n - i,
    {
        if a.get_char(i) != b.get_char(i) {
            return false;
        }
        i = i + 1;
    }
    assert(a@ =~= b@);
    true
}

/// Whether `needle` occurs in `hay`.
pub fn contains_text(hay: &str, needle: &str) -> (r: bool)
    ensures
        r == occurs_in(needle@, hay@),
{
    let n = hay.unicode_len();
    let m = needle.unicode_len();
    if m > n {
        return false;
    }
    let mut i: usize = 0;
    while i <= n - m
        invariant
            n == hay@.len(),
            m == needle@.len(),
            m <= n,
            i <= n - m + 1,
            forall|k: int| 0 <= k < i ==> #[trigger] hay@.subrange(k, k + m) != needle@,
        decreases n - m + 1 - i,
    {
        let mut j: usize = 0;
        let mut same = true;
        while j < m
            invariant
                n == hay@.len(),
                m == needle@.len(),
                i + m <= n,
                j <= m,
                same == forall|l: int| 0 <= l < j ==> hay@[i + l] == needle@[l],
            decreases m - j,
        {
            if same && hay.get_char(i + j) != needle.get_char(j) {
                same = false;
            }
            j = j + 1;
        }
        if same {
            assert(hay@.subrange(i as int, i + m) =~= needle@);
            return true;
        }
        assert(hay@.subrange(i as int, i + m)[0] == hay@[i as int + 0]);
        assert(exists|l: int| 0 <= l < m && hay@[i + l] != needle@[l]);
        assert(hay@.subrange(i as int, i + m) != needle@) by {
            let l = choose|l: int| 0 <= l < m && hay@[i + l] != needle@[l];
            assert(hay@.subrange(i as int, i + m)[l] == hay@[i + l]);
        }
        i = i + 1;
    }
    false
}


/// `s` with every occurrence of `from` replaced by `to`, scanning left to right.
pub open spec fn replace_all(s: Seq<char>, from: Seq<char>, to: Seq<char>) -> Seq<char>
    decreases s.len(),
{
    if from.len() == 0 || s.len() < from.len() {
        s
    } else if s.subrange(0, from.len() as int) == from {
        to + replace_all(s.subrange(from.len() as int, s.len() as int), from, to)
    } else {
        seq![s[0]] + replace_all(s.drop_first(), from, to)
    }
}

/// Relies on str::replace: all non-overlapping occurrences of a nonempty `from`, found
/// left to right, are replaced by `to`.
#[verifier::external_body]
pub(crate) fn replace_text(s: &str, from: &str, to: &str) -> (r: String)
    requires
        from@.len() > 0,
    ensures
        r@ == replace_all(s@, from@, to@),
{
    s.replace(from, to)
}

/// The bytes of `b` from the start of line `k` on; empty when `b` has fewer lines.
pub open spec fn skip_lines(b: Seq<u8>, k: nat) -> Seq<u8>
    decreases b.len(),
{
    if k == 0 || b.len() == 0 {
        b
    } else if b[0] == 10u8 {
        skip_lines(b.drop_first(), (k - 1) as nat)
    } else {
        skip_lines(b.drop_first(), k)
    }
}

/// The first `n` lines of `b`, without the newline that ends the last of them.
pub open spec fn take_lines(b: Seq<u8>, n: nat) -> Seq<u8>
    decreases b.len(),
{
    if b.len() == 0 {
        b
    } else if b[0] == 10u8 {
        if n <= 1 {
            Seq::empty()
        } else {
            seq![10u8] + take_lines(b.drop_first(), (n - 1) as nat)
        }
    } else {
        seq![b[0]] + take_lines(b.drop_first(), n)
    }
}

/// The bytes of lines `first` to `last` of `b`, both included.
pub open spec fn lines_bytes(b: Seq<u8>, first: nat, last: nat) -> Seq<u8> {
    take_lines(skip_lines(b, first), (last - first + 1) as nat)
}

proof fn lemma_newline_boundary(s: &str, q: int)
    requires
        0 <= q < s.spec_bytes().len(),
        s.spec_bytes()[q] == 10u8,
    ensures
        is_char_boundary(s.spec_bytes(), q),
{
    encode_utf8_valid_utf8(s@);
    is_char_boundary_iff_not_is_continuation_byte(s.spec_bytes(), q);
}

proof fn lemma_after_newline(s: &str)
    requires
        s.spec_bytes().len() > 0,
        s.spec_bytes()[0] == 10u8,
    ensures
        is_char_boundary(s.spec_bytes(), 1),
{
    let b = s.spec_bytes();
    encode_utf8_valid_utf8(s@);
    if b.len() == 1 {
        is_char_boundary_start_end_of_seq(b);
    } else {
        reveal_with_fuel(is_char_boundary, 2);
        assert(length_of_first_scalar(b) == 1);
    }
}

proof fn lemma_skip_step(b: Seq<u8>, j: int, k: nat)
    requires
        0 <= j < b.len(),
        k > 0,
    ensures
        skip_lines(b.subrange(j, b.len() as int), k) == if b[j] == 10u8 {
            skip_lines(b.subrange(j + 1, b.len() as int), (k - 1) as nat)
        } else {
            skip_lines(b.subrange(j + 1, b.len() as int), k)
        },
{
    assert(b.subrange(j, b.len() as int).drop_first() =~= b.subrange(j + 1, b.len() as int));
}

proof fn lemma_take_step(r: Seq<u8>, z: int, n: nat)
    requires
        0 <= z < r.len(),
    ensures
        take_lines(r.subrange(z, r.len() as int), n) == if r[z] == 10u8 {
            if n <= 1 {
                Seq::empty()
            } else {
                seq![10u8] + take_lines(r.subrange(z + 1, r.len() as int), (n - 1) as nat)
            }
        } else {
            seq![r[z]] + take_lines(r.subrange(z + 1, r.len() as int), n)
        },
{
    assert(r.subrange(z, r.len() as int).drop_first() =~= r.subrange(z + 1, r.len() as int));
}

/// Where line `first` (at least the second) begins: just past the newline at the offset
/// returned, or nowhere when `text` has fewer lines.
fn newline_before_line(text: &str, first: usize) -> (r: Option<usize>)
    requires
        first > 0,
    ensures
        match r {
            Some(q) => q < text.spec_bytes().len() && text.spec_bytes()[q as int] == 10u8
                && skip_lines(text.spec_bytes(), first as nat) == text.spec_bytes().subrange(
                q + 1,
                text.spec_bytes().len() as int,
            ),
            None => skip_lines(text.spec_bytes(), first as nat) == Seq::<u8>::empty(),
        },
{
    let b = text.as_bytes();
    let ghost bs = b@;
    let mut count: usize = 0;
    let mut j: usize = 0;
    assert(bs.subrange(0, bs.len() as int) =~= bs);
    while j < b.len()
        invariant
            b@ == text.spec_bytes(),
            bs == b@,
            j <= bs.len(),
            count < first,
            skip_lines(bs, first as nat) == skip_lines(
                bs.subrange(j as int, bs.len() as int),
                (first - count) as nat,
            ),
        decreases bs.len() - j,
    {
        proof {
            lemma_skip_step(bs, j as int, (first - count) as nat);
        }
        if b[j] == 10u8 {
            if count + 1 == first {
                return Some(j);
            }
            count = count + 1;
        }
        j = j + 1;
    }
    assert(bs.subrange(j as int, bs.len() as int) =~= Seq::<u8>::empty());
    None
}

/// Where the first `n + 1` lines of `text` end: the offset of the newline that ends them,
/// or the length of `text`.
fn end_of_lines(text: &str, n: usize) -> (z: usize)
    ensures
        z <= text.spec_bytes().len(),
        z < text.spec_bytes().len() ==> text.spec_bytes()[z as int] == 10u8,
        take_lines(text.spec_bytes(), (n + 1) as nat) == text.spec_bytes().subrange(0, z as int),
{
    let rb = text.as_bytes();
    let ghost rs = rb@;
    let mut count2: usize = 0;
    let mut z: usize = 0;
    assert(rs.subrange(0, 0) =~= Seq::<u8>::empty());
    assert(rs.subrange(0, rs.len() as int) =~= rs);
    assert(rs.subrange(0, 0) + rs =~= rs);
    while z < rb.len()
        invariant
            rb@ == text.spec_bytes(),
            rs == rb@,
            z <= rs.len(),
            count2 <= n,
            take_lines(rs, (n + 1) as nat) == rs.subrange(0, z as int) + take_lines(
                rs.subrange(z as int, rs.len() as int),
                (n + 1 - count2) as nat,
            ),
        decreases rs.len() - z,
    {
        proof {
            lemma_take_step(rs, z as int, (n + 1 - count2) as nat);
        }
        if rb[z] == 10u8 {
            if count2 == n {
                assert(rs.subrange(0, z as int) + Seq::<u8>::empty() =~= rs.subrange(0, z as int));
                return z;
            }
            count2 = count2 + 1;
        }
        assert(rs.subrange(0, z + 1) =~= rs.subrange(0, z as int) + seq![rs[z as int]]);
        z = z + 1;
    }
    assert(rs.subrange(z as int, rs.len() as int) =~= Seq::<u8>::empty());
    assert(rs.subrange(0, z as int) + Seq::<u8>::empty() =~= rs.subrange(0, z as int));
    z
}

/// The text of lines `first` to `last` of `text`, both included, without the newline that
/// ends line `last`.
pub fn code_lines(text: &str, first: usize, last: usize) -> (r: String)
    requires
        first <= last,
    ensures
        encode_utf8(r@) == lines_bytes(text.spec_bytes(), first as nat, last as nat),
{
    let mut rest: &str = text;
    if first > 0 {
        match newline_before_line(text, first) {
            None => {
                let e = String::new();
                assert(encode_utf8(e@) =~= Seq::<u8>::empty());
                return e;
            },
            Some(q) => {
                proof {
                    lemma_newline_boundary(text, q as int);
                }
                let (_, tail) = text.split_at(q);
                assert(tail.spec_bytes()[0] == 10u8);
                proof {
                    lemma_after_newline(tail);
                }
                let (_, after) = tail.split_at(1);
                assert(after.spec_bytes() =~= text.spec_bytes().subrange(
                    q + 1,
                    text.spec_bytes().len() as int,
                ));
                rest = after;
            },
        }
    }
    assert(rest.spec_bytes() == skip_lines(text.spec_bytes(), first as nat));
    let z = end_of_lines(rest, last - first);
    proof {
        if z == rest.spec_bytes().len() {
            encode_utf8_valid_utf8(rest@);
            is_char_boundary_start_end_of_seq(rest.spec_bytes());
        } else {
            lemma_newline_boundary(rest, z as int);
        }
    }
    let (head, _) = rest.split_at(z);
    head.to_owned()
}


proof fn lemma_count_prefix_mono(b: Seq<u8>, i: int, j: int)
    requires
        0 <= i <= j <= b.len(),
    ensures
        count_newlines(b.subrange(0, i)) <= count_newlines(b.subrange(0, j)),
    decreases j - i,
{
    if i < j {
        lemma_count_prefix_mono(b, i, j - 1);
        lemma_count_step(b, j - 1);
    }
}

/// A later offset never lies on an earlier line.
pub proof fn lemma_line_of_monotone(b: Seq<u8>, s: int, e: int)
    requires
        s <= e,
    ensures
        line_of(b, s) <= line_of(b, e),
{
    let cs = if s <= 0 { 0 } else if s >= b.len() { b.len() as int } else { s };
    let ce = if e <= 0 { 0 } else if e >= b.len() { b.len() as int } else { e };
    assert(b.subrange(0, b.len() as int) =~= b);
    assert(b.subrange(0, 0) =~= Seq::<u8>::empty());
    lemma_count_prefix_mono(b, cs, ce);
}


/// Relies on std::str::from_utf8: the bytes as text exactly when they are valid UTF-8.
#[verifier::external_body]
pub(crate) fn decode_text(b: &[u8]) -> (r: Option<&str>)
    ensures
        r is Some <==> valid_utf8(b@),
        r matches Some(s) ==> s.spec_bytes() == b@,
{
    std::str::from_utf8(b).ok()
}

} // verus!
