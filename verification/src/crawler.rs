//! Hints to web crawlers, rendered as the comma-separated value of a
//! `robots` meta tag: `index`/`noindex` and `follow`/`nofollow` always,
//! then `noarchive,nocache`, `nosnippet` and `noimageindex` for each
//! permission that is withheld.

use vstd::prelude::*;
use vstd::string::StringExecFns;

verus! {

/// What a page allows crawlers to do.
#[derive(Clone, Copy, PartialEq, Eq, Structural, Debug)]
pub struct CrawlerHints {
    pub index: bool,
    pub follow: bool,
    pub archive: bool,
    pub snippet: bool,
    pub image_index: bool,
}

/// The meta list the hints render to.
pub open spec fn spec_meta_list(h: CrawlerHints) -> Seq<char> {
    (if h.index {
        "index"@
    } else {
        "noindex"@
    }) + ","@ + (if h.follow {
        "follow"@
    } else {
        "nofollow"@
    }) + (if h.archive {
        Seq::<char>::empty()
    } else {
        ","@ + "noarchive"@ + ","@ + "nocache"@
    }) + (if h.snippet {
        Seq::<char>::empty()
    } else {
        ","@ + "nosnippet"@
    }) + (if h.image_index {
        Seq::<char>::empty()
    } else {
        ","@ + "noimageindex"@
    })
}

impl CrawlerHints {
    /// Everything withheld.
    pub fn restrictive() -> (r: Self)
        ensures
            r == (CrawlerHints {
                index: false,
                follow: false,
                archive: false,
                snippet: false,
                image_index: false,
            }),
    {
        CrawlerHints { index: false, follow: false, archive: false, snippet: false, image_index: false }
    }

    /// Everything allowed.
    pub fn permissive() -> (r: Self)
        ensures
            r == (CrawlerHints {
                index: true,
                follow: true,
                archive: true,
                snippet: true,
                image_index: true,
            }),
    {
        CrawlerHints { index: true, follow: true, archive: true, snippet: true, image_index: true }
    }

    /// The hints with `index` set as given.
    pub fn with_index(self, index: bool) -> (r: Self)
        ensures
            r == (CrawlerHints { index, ..self }),
    {
        CrawlerHints { index, ..self }
    }

    /// The hints with `follow` set as given.
    pub fn with_follow(self, follow: bool) -> (r: Self)
        ensures
            r == (CrawlerHints { follow, ..self }),
    {
        CrawlerHints { follow, ..self }
    }

    /// The hints with `archive` set as given.
    pub fn with_archive(self, archive: bool) -> (r: Self)
        ensures
            r == (CrawlerHints { archive, ..self }),
    {
        CrawlerHints { archive, ..self }
    }

    /// The hints with `snippet` set as given.
    pub fn with_snippet(self, snippet: bool) -> (r: Self)
        ensures
            r == (CrawlerHints { snippet, ..self }),
    {
        CrawlerHints { snippet, ..self }
    }

    /// The hints with `image_index` set as given.
    pub fn with_image_index(self, image_index: bool) -> (r: Self)
        ensures
            r == (CrawlerHints { image_index, ..self }),
    {
        CrawlerHints { image_index, ..self }
    }

    /// The indexability word.
    pub fn index_str(self) -> (r: &'static str)
        ensures
            r@ == (if self.index {
                "index"@
            } else {
                "noindex"@
            }),
    {
        if self.index {
            "index"
        } else {
            "noindex"
        }
    }

    /// The link-following word.
    pub fn follow_str(self) -> (r: &'static str)
        ensures
            r@ == (if self.follow {
                "follow"@
            } else {
                "nofollow"@
            }),
    {
        if self.follow {
            "follow"
        } else {
            "nofollow"
        }
    }

    /// The two words withheld archiving adds, if it is withheld.
    pub fn archive_strs(self) -> (r: Option<[&'static str; 2]>)
        ensures
            match r {
                Some(a) => !self.archive && a@[0]@ == "noarchive"@ && a@[1]@ == "nocache"@,
                None => self.archive,
            },
    {
        if self.archive {
            None
        } else {
            let a: [&'static str; 2] = ["noarchive", "nocache"];
            proof {
                assert(a@[0]@ == "noarchive"@);
                assert(a@[1]@ == "nocache"@);
            }
            Some(a)
        }
    }

    /// The word withheld snippets add, if they are withheld.
    pub fn snippet_str(self) -> (r: Option<&'static str>)
        ensures
            match r {
                Some(s) => !self.snippet && s@ == "nosnippet"@,
                None => self.snippet,
            },
    {
        if self.snippet {
            None
        } else {
            Some("nosnippet")
        }
    }

    /// The word withheld image indexing adds, if it is withheld.
    pub fn image_index_str(self) -> (r: Option<&'static str>)
        ensures
            match r {
                Some(s) => !self.image_index && s@ == "noimageindex"@,
                None => self.image_index,
            },
    {
        if self.image_index {
            None
        } else {
            Some("noimageindex")
        }
    }

    /// Append the meta list to a buffer.
    #[verifier::rlimit(60)]
    pub fn write_meta_list_to(self, buf: &mut String)
        ensures
            final(buf)@ == old(buf)@ + spec_meta_list(self),
    {
        buf.append(self.index_str());
        buf.append(",");
        buf.append(self.follow_str());
        match self.archive_strs() {
            Some(a) => {
                buf.append(",");
                buf.append(a[0]);
                buf.append(",");
                buf.append(a[1]);
            },
            None => {},
        }
        match self.snippet_str() {
            Some(s) => {
                buf.append(",");
                buf.append(s);
            },
            None => {},
        }
        match self.image_index_str() {
            Some(s) => {
                buf.append(",");
                buf.append(s);
            },
            None => {},
        }
        proof {
            assert(buf@ =~= old(buf)@ + spec_meta_list(self));
        }
    }

    /// The meta list, as a fresh string.
    pub fn meta_list(self) -> (r: String)
        ensures
            r@ == spec_meta_list(self),
    {
        let mut buf: String = String::new();
        self.write_meta_list_to(&mut buf);
        proof {
            assert(buf@ =~= spec_meta_list(self));
        }
        buf
    }
}

} // verus!
