//! Canonical post identifiers, derived from post file names by stripping
//! the fixed `.toml.md` suffix and rejecting path-separator and dot
//! characters in what remains.

use vstd::prelude::*;
use vstd::string::StrSliceExecFns;
use vstd::string::StringExecFns;

use crate::text::seq_str_lt;
use crate::text::str_lt;

verus! {

/// The fixed suffix of a post file name, as a character sequence.
pub open spec fn post_file_suffix() -> Seq<char> {
    seq!['.', 't', 'o', 'm', 'l', '.', 'm', 'd']
}

/// An identifier is valid when none of its characters is a path
/// separator or a literal dot.
pub open spec fn spec_valid_id(s: Seq<char>) -> bool {
    forall|i: int| 0 <= i < s.len() ==> s[i] != '/' && s[i] != '\\' && s[i] != '.'
}

/// The identifier a file name yields: the file name must end with the
/// post-file suffix and the remaining prefix must be a valid identifier.
pub open spec fn spec_id_of_file_name(name: Seq<char>) -> Option<Seq<char>> {
    if name.len() >= post_file_suffix().len() && name.skip(
        name.len() - post_file_suffix().len(),
    ) == post_file_suffix() && spec_valid_id(name.take(name.len() - post_file_suffix().len())) {
        Some(name.take(name.len() - post_file_suffix().len()))
    } else {
        None
    }
}

/// A post's identifier: the store's primary key. Two identifiers are
/// equal exactly when their character sequences are equal.
pub struct Id {
    s: String,
}

impl View for Id {
    type V = Seq<char>;

    closed spec fn view(&self) -> Seq<char> {
        self.s@
    }
}

impl Clone for Id {
    fn clone(&self) -> (r: Self)
        ensures
            r@ == self@,
    {
        Id { s: self.s.clone() }
    }
}

impl Id {
    /// Derive an identifier from a file name; yields a value exactly when
    /// the name ends in the post-file suffix and the prefix contains no
    /// `/`, `\` or `.` character.
    pub fn from_file_name(file_name: &str) -> (r: Option<Id>)
        ensures
            match r {
                Some(id) => spec_id_of_file_name(file_name@) == Some(id@),
                None => spec_id_of_file_name(file_name@) is None,
            },
    {
        proof {
            reveal_strlit(".toml.md");
            assert(".toml.md"@ =~= post_file_suffix());
        }
        let n: usize = file_name.unicode_len();
        if n < 8 {
            return None;
        }
        let suffix: &str = file_name.substring_char(n - 8, n);
        if !suffix.to_owned().eq(&String::from_str(".toml.md")) {
            proof {
                assert(file_name@.skip(n - 8) =~= file_name@.subrange(n - 8, n as int));
            }
            return None;
        }
        proof {
            assert(file_name@.skip(n - 8) =~= file_name@.subrange(n - 8, n as int));
            assert(file_name@.skip(n - 8) == post_file_suffix());
        }
        let prefix_len: usize = n - 8;
        let mut i: usize = 0;
        while i < prefix_len
            invariant
                i <= prefix_len,
                prefix_len == n - 8,
                n == file_name@.len(),
                forall|j: int|
                    0 <= j < i ==> file_name@[j] != '/' && file_name@[j] != '\\'
                        && file_name@[j] != '.',
            decreases prefix_len - i,
        {
            let c = file_name.get_char(i);
            if c == '/' || c == '\\' || c == '.' {
                proof {
                    assert(file_name@.take(n - 8)[i as int] == c);
                    assert(!spec_valid_id(file_name@.take(n - 8)));
                }
                return None;
            }
            i = i + 1;
        }
        let prefix: &str = file_name.substring_char(0, prefix_len);
        proof {
            assert(file_name@.take(n - 8) =~= file_name@.subrange(0, prefix_len as int));
            assert(spec_valid_id(file_name@.take(n - 8)));
        }
        Some(Id { s: prefix.to_owned() })
    }

    /// The identifier's characters, as an owned string.
    pub fn into_inner(self) -> (r: String)
        ensures
            r@ == self@,
    {
        self.s
    }

    /// The identifier's characters, borrowed.
    pub fn as_inner(&self) -> (r: &String)
        ensures
            r@ == self@,
    {
        &self.s
    }

    /// Identifier equality: equal exactly when the character sequences are.
    pub fn eq_id(&self, other: &Id) -> (r: bool)
        ensures
            r == (self@ == other@),
    {
        self.s.eq(&other.s)
    }

    /// Does this identifier read as `s`?
    pub fn eq_str(&self, s: &str) -> (r: bool)
        ensures
            r == (self@ == s@),
    {
        self.s.eq(&s.to_owned())
    }

    /// Strict lexicographic comparison of identifiers, by code point.
    pub fn lt(&self, other: &Id) -> (r: bool)
        ensures
            r == seq_str_lt(self@, other@),
    {
        str_lt(self.s.as_str(), other.s.as_str())
    }
}

} // verus!
