//! Splitting a raw post file into its header text and markdown body on
//! the first `\n---\n` delimiter; the body's leading whitespace is
//! dropped.

use vstd::prelude::*;

use crate::error::Error;
use crate::text::chars_to_string;
use crate::text::spec_trim_start;
use crate::text::str_to_char_vec;
use crate::text::subvec;
use crate::text::trim_start;

verus! {

/// The delimiter between header and body.
pub open spec fn header_delim() -> Seq<char> {
    seq!['\n', '-', '-', '-', '\n']
}

/// Does the delimiter stand at position `j` of `s`?
pub open spec fn delim_at(s: Seq<char>, j: int) -> bool {
    0 <= j && j + 5 <= s.len() && s.subrange(j, j + 5) == header_delim()
}

/// The position of the first delimiter in `s`, or `s.len()` when there
/// is none.
pub open spec fn first_delim(s: Seq<char>) -> nat
    decreases s.len(),
{
    if s.len() < 5 {
        s.len()
    } else if s.take(5) == header_delim() {
        0
    } else {
        1 + first_delim(s.drop_first())
    }
}

/// The defining properties of `first_delim`.
pub proof fn lemma_first_delim(s: Seq<char>)
    ensures
        first_delim(s) <= s.len(),
        first_delim(s) < s.len() ==> delim_at(s, first_delim(s) as int),
        forall|j: int| 0 <= j < first_delim(s) ==> !delim_at(s, j),
    decreases s.len(),
{
    if s.len() < 5 {
        assert forall|j: int| 0 <= j < first_delim(s) implies !delim_at(s, j) by {}
    } else if s.take(5) == header_delim() {
    } else {
        lemma_first_delim(s.drop_first());
        let d = first_delim(s);
        assert(d == 1 + first_delim(s.drop_first()));
        if d < s.len() {
            let d1 = first_delim(s.drop_first()) as int;
            assert(delim_at(s.drop_first(), d1));
            assert(s.drop_first().subrange(d1, d1 + 5) =~= s.subrange(d1 + 1, d1 + 6));
            assert(delim_at(s, d as int));
        }
        assert forall|j: int| 0 <= j < d implies !delim_at(s, j) by {
            if j == 0 {
                assert(s.take(5) =~= s.subrange(0, 5));
            } else {
                assert(!delim_at(s.drop_first(), j - 1));
                if delim_at(s, j) {
                    assert(s.drop_first().subrange(j - 1, j + 4) =~= s.subrange(j, j + 5));
                }
            }
        }
    }
}

/// `first_delim` is exactly the position of the first delimiter.
pub proof fn lemma_first_delim_is(s: Seq<char>, k: nat)
    requires
        k <= s.len(),
        forall|j: int| 0 <= j < k ==> !delim_at(s, j),
        k < s.len() ==> delim_at(s, k as int),
    ensures
        first_delim(s) == k,
{
    lemma_first_delim(s);
    if first_delim(s) < k {
        assert(delim_at(s, first_delim(s) as int));
    }
    if k < first_delim(s) {
        assert(!delim_at(s, k as int));
    }
}

/// What a source file splits into: the header text before the first
/// delimiter, and the body after it with leading whitespace dropped.
pub open spec fn spec_split_source(s: Seq<char>) -> Option<(Seq<char>, Seq<char>)> {
    let d = first_delim(s);
    if d == s.len() {
        None
    } else {
        Some((s.take(d as int), spec_trim_start(s.skip(d as int + 5))))
    }
}

/// A post file split into its raw header text and its markdown body.
pub struct PostSource {
    pub header: String,
    pub markdown: String,
}

impl PostSource {
    /// The raw header text.
    pub fn header(&self) -> (r: &String)
        ensures
            r == self.header,
    {
        &self.header
    }

    /// The raw header text, for mutation.
    pub fn header_mut(&mut self) -> (r: &mut String)
        ensures
            *r == old(self).header,
            final(self).header == *final(r),
            final(self).markdown == old(self).markdown,
    {
        &mut self.header
    }

    /// The markdown body.
    pub fn markdown(&self) -> (r: &String)
        ensures
            r == self.markdown,
    {
        &self.markdown
    }

    /// The markdown body, for mutation.
    pub fn markdown_mut(&mut self) -> (r: &mut String)
        ensures
            *r == old(self).markdown,
            final(self).markdown == *final(r),
            final(self).header == old(self).header,
    {
        &mut self.markdown
    }

    /// Split a raw post file on the first `\n---\n`; absence of the
    /// delimiter is the sole failure.
    pub fn from_str(s: &str) -> (r: Result<PostSource, Error>)
        ensures
            match (r, spec_split_source(s@)) {
                (Ok(ps), Some(parts)) => ps.header@ == parts.0 && ps.markdown@ == parts.1,
                (Err(e), None) => e == Error::NoDelim,
                _ => false,
            },
    {
        let chars = str_to_char_vec(s);
        let n: usize = chars.len();
        let mut i: usize = 0;
        loop
            invariant
                i <= n,
                n == chars@.len(),
                chars@ == s@,
                forall|j: int| 0 <= j < i ==> !delim_at(s@, j),
            decreases n - i,
        {
            if n - i < 5 {
                proof {
                    assert(forall|j: int| i <= j < n ==> !delim_at(s@, j));
                    lemma_first_delim_is(s@, n as nat);
                }
                return Err(Error::NoDelim);
            }
            if chars[i] == '\n' && chars[i + 1] == '-' && chars[i + 2] == '-' && chars[i + 3]
                == '-' && chars[i + 4] == '\n' {
                proof {
                    assert(s@.subrange(i as int, i + 5) =~= header_delim());
                    lemma_first_delim_is(s@, i as nat);
                }
                let header_chars = subvec(chars.as_slice(), 0, i);
                let md_chars = trim_start(subvec(chars.as_slice(), i + 5, n).as_slice());
                let header = chars_to_string(header_chars.as_slice());
                let markdown = chars_to_string(md_chars.as_slice());
                proof {
                    assert(s@.take(i as int) =~= s@.subrange(0, i as int));
                    assert(s@.skip(i as int + 5) =~= s@.subrange(i as int + 5, n as int));
                }
                return Ok(PostSource { header, markdown });
            }
            proof {
                if delim_at(s@, i as int) {
                    assert(s@.subrange(i as int, i + 5)[0] == s@[i as int]);
                    assert(s@.subrange(i as int, i + 5)[1] == s@[i as int + 1]);
                    assert(s@.subrange(i as int, i + 5)[2] == s@[i as int + 2]);
                    assert(s@.subrange(i as int, i + 5)[3] == s@[i as int + 3]);
                    assert(s@.subrange(i as int, i + 5)[4] == s@[i as int + 4]);
                }
            }
            i = i + 1;
        }
    }
}

} // verus!
