//! Character-level string utilities shared by the parsing and rendering
//! code: conversions between `str` and character vectors, lexicographic
//! comparison, and HTML escaping.

use vstd::prelude::*;
use vstd::string::StrSliceExecFns;
use vstd::string::StringExecFns;

verus! {

/// Relies on `String::push`: appends exactly one character.
#[verifier::external_body]
pub(crate) fn push_char(s: &mut String, c: char)
    ensures
        final(s)@ == old(s)@.push(c),
{
    s.push(c)
}

/// Collect the characters of a string slice into a vector.
pub fn str_to_char_vec(s: &str) -> (r: Vec<char>)
    ensures
        r@ == s@,
{
    let n: usize = s.unicode_len();
    let mut v: Vec<char> = Vec::new();
    let mut i: usize = 0;
    while i < n
        invariant
            i <= n,
            n == s@.len(),
            v@ =~= s@.subrange(0, i as int),
        decreases n - i,
    {
        v.push(s.get_char(i));
        i = i + 1;
        assert(v@ =~= s@.subrange(0, i as int));
    }
    assert(v@ =~= s@);
    v
}

/// Build a `String` whose characters are exactly those of the slice.
pub fn chars_to_string(v: &[char]) -> (r: String)
    ensures
        r@ == v@,
{
    let n: usize = v.len();
    let mut s: String = String::new();
    let mut i: usize = 0;
    while i < n
        invariant
            i <= n,
            n == v@.len(),
            s@ =~= v@.subrange(0, i as int),
        decreases n - i,
    {
        push_char(&mut s, v[i]);
        i = i + 1;
        assert(s@ =~= v@.subrange(0, i as int));
    }
    assert(s@ =~= v@);
    s
}

/// Copy the characters of `v` between `from` and `to` into a new vector.
pub fn subvec(v: &[char], from: usize, to: usize) -> (r: Vec<char>)
    requires
        from <= to <= v@.len(),
    ensures
        r@ == v@.subrange(from as int, to as int),
{
    let mut r: Vec<char> = Vec::new();
    let mut i: usize = from;
    while i < to
        invariant
            from <= i <= to <= v@.len(),
            r@ =~= v@.subrange(from as int, i as int),
        decreases to - i,
    {
        r.push(v[i]);
        i = i + 1;
        assert(r@ =~= v@.subrange(from as int, i as int));
    }
    assert(r@ =~= v@.subrange(from as int, to as int));
    r
}

/// The position of the first occurrence of `c` in `s`, or `s.len()` when
/// `c` does not occur.
pub open spec fn first_ch(s: Seq<char>, c: char) -> nat
    decreases s.len(),
{
    if s.len() == 0 {
        0
    } else if s[0] == c {
        0
    } else {
        1 + first_ch(s.drop_first(), c)
    }
}

/// The defining properties of `first_ch`.
pub proof fn lemma_first_ch(s: Seq<char>, c: char)
    ensures
        first_ch(s, c) <= s.len(),
        first_ch(s, c) < s.len() ==> s[first_ch(s, c) as int] == c,
        forall|j: int| 0 <= j < first_ch(s, c) ==> s[j] != c,
    decreases s.len(),
{
    if s.len() == 0 {
    } else if s[0] == c {
    } else {
        lemma_first_ch(s.drop_first(), c);
        assert(first_ch(s, c) == 1 + first_ch(s.drop_first(), c));
        if first_ch(s, c) < s.len() {
            assert(s[first_ch(s, c) as int] == s.drop_first()[first_ch(s.drop_first(), c) as int]);
        }
        assert forall|j: int| 0 <= j < first_ch(s, c) implies s[j] != c by {
            if j >= 1 {
                assert(s.drop_first()[j - 1] == s[j]);
                assert(s.drop_first()[j - 1] != c);
            }
        }
    }
}

/// `first_ch` is exactly the position of the first occurrence: a
/// position with no occurrence before it and either an occurrence or the
/// end at it.
pub proof fn lemma_first_ch_is(s: Seq<char>, c: char, k: nat)
    requires
        k <= s.len(),
        forall|j: int| 0 <= j < k ==> s[j] != c,
        k < s.len() ==> s[k as int] == c,
    ensures
        first_ch(s, c) == k,
{
    lemma_first_ch(s, c);
    if first_ch(s, c) < k {
        assert(s[first_ch(s, c) as int] != c);
    }
    if first_ch(s, c) > k {
        assert(s[k as int] != c);
    }
}

/// Find the first occurrence of `c` in `v`, as a position; `v.len()`
/// when `c` does not occur.
pub fn find_char(v: &[char], c: char) -> (r: usize)
    ensures
        r == first_ch(v@, c),
        r <= v@.len(),
{
    let n: usize = v.len();
    let mut i: usize = 0;
    while i < n
        invariant
            i <= n,
            n == v@.len(),
            forall|j: int| 0 <= j < i ==> v@[j] != c,
        decreases n - i,
    {
        if v[i] == c {
            proof {
                lemma_first_ch_is(v@, c, i as nat);
            }
            return i;
        }
        i = i + 1;
    }
    proof {
        lemma_first_ch_is(v@, c, n as nat);
    }
    n
}

/// The lines of `s`: the maximal runs of characters between newline
/// characters. A trailing newline yields a final empty line; an empty
/// input is one empty line.
pub open spec fn spec_split_lines(s: Seq<char>) -> Seq<Seq<char>>
    decreases s.len(),
{
    let i = first_ch(s, '\n');
    if i >= s.len() {
        seq![s]
    } else {
        seq![s.take(i as int)] + spec_split_lines(s.skip(i as int + 1))
    }
}

/// Split `v` into its newline-separated lines.
pub fn split_lines(v: &[char]) -> (r: Vec<Vec<char>>)
    ensures
        r.deep_view() == spec_split_lines(v@),
{
    let n: usize = v.len();
    let mut lines: Vec<Vec<char>> = Vec::new();
    let mut start: usize = 0;
    let mut i: usize = 0;
    proof {
        assert(v@.skip(0) =~= v@);
        assert(lines.deep_view() =~~= Seq::<Seq<char>>::empty());
        assert(lines.deep_view() + spec_split_lines(v@) =~~= spec_split_lines(v@));
    }
    loop
        invariant
            start <= i <= n,
            n == v@.len(),
            forall|j: int| start <= j < i ==> v@[j] != '\n',
            spec_split_lines(v@) == lines.deep_view() + spec_split_lines(v@.skip(start as int)),
        decreases n - i,
    {
        if i == n {
            let ghost pre = lines.deep_view();
            let line = subvec(v, start, n);
            lines.push(line);
            proof {
                let rest = v@.skip(start as int);
                assert(forall|j: int| 0 <= j < rest.len() ==> rest[j] == v@[start + j]);
                lemma_first_ch_is(rest, '\n', rest.len() as nat);
                assert(spec_split_lines(rest) == seq![rest]);
                assert(line@ =~= rest);
                assert(lines.deep_view() =~~= pre + seq![rest]);
                assert(spec_split_lines(v@) =~~= lines.deep_view());
            }
            return lines;
        }
        if v[i] == '\n' {
            let ghost pre = lines.deep_view();
            let line = subvec(v, start, i);
            lines.push(line);
            proof {
                let rest = v@.skip(start as int);
                assert(forall|j: int| 0 <= j < rest.len() ==> rest[j] == v@[start + j]);
                lemma_first_ch_is(rest, '\n', (i - start) as nat);
                assert(rest.take(i - start) =~= v@.subrange(start as int, i as int));
                assert(rest.skip(i - start + 1) =~= v@.skip(i + 1));
                assert(spec_split_lines(rest) == seq![v@.subrange(start as int, i as int)]
                    + spec_split_lines(v@.skip(i + 1)));
                assert(lines.deep_view() =~~= pre + seq![v@.subrange(start as int, i as int)]);
                assert(lines.deep_view() + spec_split_lines(v@.skip(i + 1)) =~~= spec_split_lines(
                    v@,
                ));
            }
            start = i + 1;
            i = start;
        } else {
            i = i + 1;
        }
    }
}

/// Horizontal whitespace: what trimming removes at either end of a line.
pub open spec fn is_hspace(c: char) -> bool {
    c == ' ' || c == '\t' || c == '\r'
}

/// `s` without its leading horizontal whitespace.
pub open spec fn spec_trim_left(s: Seq<char>) -> Seq<char>
    decreases s.len(),
{
    if s.len() > 0 && is_hspace(s[0]) {
        spec_trim_left(s.drop_first())
    } else {
        s
    }
}

/// `s` without its trailing horizontal whitespace.
pub open spec fn spec_trim_right(s: Seq<char>) -> Seq<char>
    decreases s.len(),
{
    if s.len() > 0 && is_hspace(s.last()) {
        spec_trim_right(s.drop_last())
    } else {
        s
    }
}

/// `s` without leading and trailing horizontal whitespace.
pub open spec fn spec_trim(s: Seq<char>) -> Seq<char> {
    spec_trim_right(spec_trim_left(s))
}

/// Trimming from the left skips exactly the maximal whitespace prefix.
pub proof fn lemma_trim_left_is(s: Seq<char>, k: nat)
    requires
        k <= s.len(),
        forall|j: int| 0 <= j < k ==> is_hspace(s[j]),
        k < s.len() ==> !is_hspace(s[k as int]),
    ensures
        spec_trim_left(s) == s.skip(k as int),
    decreases k,
{
    if k == 0 {
        assert(s.skip(0) =~= s);
    } else {
        assert(is_hspace(s[0]));
        lemma_trim_left_is(s.drop_first(), (k - 1) as nat);
        assert(s.drop_first().skip(k - 1) =~= s.skip(k as int));
    }
}

/// Trimming from the right keeps exactly the prefix up to the maximal
/// whitespace suffix.
pub proof fn lemma_trim_right_is(s: Seq<char>, k: nat)
    requires
        k <= s.len(),
        forall|j: int| k <= j < s.len() ==> is_hspace(s[j]),
        k > 0 ==> !is_hspace(s[k - 1]),
    ensures
        spec_trim_right(s) == s.take(k as int),
    decreases s.len() - k,
{
    if k == s.len() {
        assert(s.take(k as int) =~= s);
    } else {
        assert(is_hspace(s.last()));
        lemma_trim_right_is(s.drop_last(), k);
        assert(s.drop_last().take(k as int) =~= s.take(k as int));
    }
}

/// Trim horizontal whitespace from both ends of `v`.
pub fn trim(v: &[char]) -> (r: Vec<char>)
    ensures
        r@ == spec_trim(v@),
{
    let n: usize = v.len();
    let mut lo: usize = 0;
    while lo < n && (v[lo] == ' ' || v[lo] == '\t' || v[lo] == '\r')
        invariant
            lo <= n,
            n == v@.len(),
            forall|j: int| 0 <= j < lo ==> is_hspace(v@[j]),
        decreases n - lo,
    {
        lo = lo + 1;
    }
    proof {
        lemma_trim_left_is(v@, lo as nat);
    }
    let mut hi: usize = n;
    while hi > lo && (v[hi - 1] == ' ' || v[hi - 1] == '\t' || v[hi - 1] == '\r')
        invariant
            lo <= hi <= n,
            n == v@.len(),
            forall|j: int| hi <= j < n ==> is_hspace(v@[j]),
        decreases hi,
    {
        hi = hi - 1;
    }
    proof {
        let left = v@.skip(lo as int);
        assert(forall|j: int|
            hi - lo <= j < left.len() ==> left[j] == v@[j + lo] && is_hspace(left[j]));
        if hi > lo {
            assert(left[hi - lo - 1] == v@[hi - 1]);
        }
        lemma_trim_right_is(left, (hi - lo) as nat);
        assert(left.take(hi - lo) =~= v@.subrange(lo as int, hi as int));
    }
    subvec(v, lo, hi)
}

/// Whitespace, for trimming the start of the markdown body.
pub open spec fn is_space(c: char) -> bool {
    is_hspace(c) || c == '\n'
}

/// `s` without its leading whitespace.
pub open spec fn spec_trim_start(s: Seq<char>) -> Seq<char>
    decreases s.len(),
{
    if s.len() > 0 && is_space(s[0]) {
        spec_trim_start(s.drop_first())
    } else {
        s
    }
}

/// Trimming from the start skips exactly the maximal whitespace prefix.
pub proof fn lemma_trim_start_is(s: Seq<char>, k: nat)
    requires
        k <= s.len(),
        forall|j: int| 0 <= j < k ==> is_space(s[j]),
        k < s.len() ==> !is_space(s[k as int]),
    ensures
        spec_trim_start(s) == s.skip(k as int),
    decreases k,
{
    if k == 0 {
        assert(s.skip(0) =~= s);
    } else {
        assert(is_space(s[0]));
        lemma_trim_start_is(s.drop_first(), (k - 1) as nat);
        assert(s.drop_first().skip(k - 1) =~= s.skip(k as int));
    }
}

/// Drop leading whitespace from `v`.
pub fn trim_start(v: &[char]) -> (r: Vec<char>)
    ensures
        r@ == spec_trim_start(v@),
{
    let n: usize = v.len();
    let mut lo: usize = 0;
    while lo < n && (v[lo] == ' ' || v[lo] == '\t' || v[lo] == '\r' || v[lo] == '\n')
        invariant
            lo <= n,
            n == v@.len(),
            forall|j: int| 0 <= j < lo ==> is_space(v@[j]),
        decreases n - lo,
    {
        lo = lo + 1;
    }
    proof {
        lemma_trim_start_is(v@, lo as nat);
        assert(v@.skip(lo as int) =~= v@.subrange(lo as int, n as int));
    }
    subvec(v, lo, n)
}

/// Does the character vector read as the string `s`?
pub fn chars_eq_str(v: &[char], s: &str) -> (r: bool)
    ensures
        r == (v@ == s@),
{
    let n: usize = v.len();
    let m: usize = s.unicode_len();
    if n != m {
        return false;
    }
    let mut i: usize = 0;
    while i < n
        invariant
            i <= n,
            n == v@.len(),
            n == s@.len(),
            forall|j: int| 0 <= j < i ==> v@[j] == s@[j],
        decreases n - i,
    {
        if v[i] != s.get_char(i) {
            return false;
        }
        i = i + 1;
    }
    proof {
        assert(v@ =~= s@);
    }
    true
}

/// Strict lexicographic order on character sequences, by code point:
/// `a` comes first when it is a proper prefix of `b` or its character at
/// the first difference has the smaller code point.
pub open spec fn seq_str_lt(a: Seq<char>, b: Seq<char>) -> bool
    decreases a.len(),
{
    if b.len() == 0 {
        false
    } else if a.len() == 0 {
        true
    } else if a[0] != b[0] {
        (a[0] as u32) < (b[0] as u32)
    } else {
        seq_str_lt(a.drop_first(), b.drop_first())
    }
}

/// Compare two strings in the order of `seq_str_lt`.
pub fn str_lt(a: &str, b: &str) -> (r: bool)
    ensures
        r == seq_str_lt(a@, b@),
{
    let a_len: usize = a.unicode_len();
    let b_len: usize = b.unicode_len();
    let mut i: usize = 0;
    proof {
        assert(a@.skip(0) =~= a@);
        assert(b@.skip(0) =~= b@);
    }
    loop
        invariant
            i <= a_len,
            i <= b_len,
            a_len == a@.len(),
            b_len == b@.len(),
            seq_str_lt(a@, b@) == seq_str_lt(a@.skip(i as int), b@.skip(i as int)),
        decreases a_len - i,
    {
        if i == a_len {
            return i < b_len;
        }
        if i == b_len {
            return false;
        }
        let ca = a.get_char(i);
        let cb = b.get_char(i);
        if ca != cb {
            return (ca as u32) < (cb as u32);
        }
        proof {
            assert(a@.skip(i as int).drop_first() =~= a@.skip(i + 1));
            assert(b@.skip(i as int).drop_first() =~= b@.skip(i + 1));
        }
        i = i + 1;
    }
}

/// The order facts the sorted index relies on: two sequences that are
/// unordered either way are equal, and the order is asymmetric.
pub proof fn lemma_seq_str_lt_trichotomy(a: Seq<char>, b: Seq<char>)
    ensures
        !seq_str_lt(a, b) && !seq_str_lt(b, a) ==> a =~= b,
        seq_str_lt(a, b) ==> !seq_str_lt(b, a),
    decreases a.len() + b.len(),
{
    if a.len() == 0 || b.len() == 0 {
    } else if a[0] != b[0] {
        vstd::utf8::char_u32_cast(a[0], a[0] as u32);
        vstd::utf8::char_u32_cast(b[0], b[0] as u32);
    } else {
        lemma_seq_str_lt_trichotomy(a.drop_first(), b.drop_first());
        assert(seq_str_lt(a, b) == seq_str_lt(a.drop_first(), b.drop_first()));
        assert(seq_str_lt(b, a) == seq_str_lt(b.drop_first(), a.drop_first()));
        if !seq_str_lt(a, b) && !seq_str_lt(b, a) {
            assert(a.drop_first() =~= b.drop_first());
            assert(forall|i: int| 1 <= i < a.len() ==> a[i] == a.drop_first()[i - 1]);
            assert(forall|i: int| 1 <= i < b.len() ==> b[i] == b.drop_first()[i - 1]);
            assert(a =~= b);
        }
    }
}

/// Transitivity of `seq_str_lt`.
pub proof fn lemma_seq_str_lt_trans(a: Seq<char>, b: Seq<char>, c: Seq<char>)
    requires
        seq_str_lt(a, b),
        seq_str_lt(b, c),
    ensures
        seq_str_lt(a, c),
    decreases a.len() + b.len() + c.len(),
{
    if b.len() == 0 || c.len() == 0 {
    } else if a.len() == 0 {
    } else {
        if a[0] == b[0] && b[0] == c[0] {
            lemma_seq_str_lt_trans(a.drop_first(), b.drop_first(), c.drop_first());
        }
    }
}

/// HTML escape of one character: `&`, `<`, `>` and `"` become entities,
/// every other character stands unchanged.
pub open spec fn spec_escape_char(c: char) -> Seq<char> {
    if c == '&' {
        seq!['&', 'a', 'm', 'p', ';']
    } else if c == '<' {
        seq!['&', 'l', 't', ';']
    } else if c == '>' {
        seq!['&', 'g', 't', ';']
    } else if c == '"' {
        seq!['&', 'q', 'u', 'o', 't', ';']
    } else {
        seq![c]
    }
}

/// HTML escape of a character sequence.
pub open spec fn spec_escape(s: Seq<char>) -> Seq<char>
    decreases s.len(),
{
    if s.len() == 0 {
        Seq::empty()
    } else {
        spec_escape_char(s[0]) + spec_escape(s.drop_first())
    }
}

/// Escaping distributes over concatenation.
pub proof fn lemma_escape_concat(a: Seq<char>, b: Seq<char>)
    ensures
        spec_escape(a + b) =~= spec_escape(a) + spec_escape(b),
    decreases a.len(),
{
    if a.len() == 0 {
        assert(a + b =~= b);
        assert(spec_escape(a) =~= Seq::empty());
    } else {
        lemma_escape_concat(a.drop_first(), b);
        assert((a + b).drop_first() =~= a.drop_first() + b);
        assert(spec_escape(a + b) =~= spec_escape_char(a[0]) + spec_escape(a.drop_first() + b));
    }
}

/// Escape `&`, `<`, `>` and `"` in a string, for safe inclusion in HTML
/// text and attribute positions.
pub fn escape_html(s: &str) -> (r: String)
    ensures
        r@ == spec_escape(s@),
{
    let n: usize = s.unicode_len();
    let mut out: String = String::new();
    let mut i: usize = 0;
    while i < n
        invariant
            i <= n,
            n == s@.len(),
            out@ =~= spec_escape(s@.subrange(0, i as int)),
        decreases n - i,
    {
        let c = s.get_char(i);
        if c == '&' {
            out.append("&amp;");
            proof {
                reveal_strlit("&amp;");
            }
        } else if c == '<' {
            out.append("&lt;");
            proof {
                reveal_strlit("&lt;");
            }
        } else if c == '>' {
            out.append("&gt;");
            proof {
                reveal_strlit("&gt;");
            }
        } else if c == '"' {
            out.append("&quot;");
            proof {
                reveal_strlit("&quot;");
            }
        } else {
            push_char(&mut out, c);
        }
        proof {
            let pre = s@.subrange(0, i as int);
            let one = seq![s@[i as int]];
            lemma_escape_concat(pre, one);
            assert(pre + one =~= s@.subrange(0, i + 1));
            assert(one.drop_first() =~= Seq::<char>::empty());
            assert(spec_escape(one) =~= spec_escape_char(s@[i as int]) + spec_escape(
                Seq::<char>::empty(),
            ));
            assert(spec_escape(one) =~= spec_escape_char(s@[i as int]));
        }
        i = i + 1;
    }
    assert(s@.subrange(0, n as int) =~= s@);
    out
}

} // verus!
