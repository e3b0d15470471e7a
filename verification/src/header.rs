//! The structured header of a post: title, optional subtitle, author,
//! tags and publication instant.

use vstd::prelude::*;

use crate::time::Timestamp;

verus! {

/// The decoded header of a post file. `title` and `author` are required
/// by the decoder; `tags` may be empty; `published` defaults to the Unix
/// epoch when the source names none.
pub struct Header {
    pub title: String,
    pub subtitle: Option<String>,
    pub author: String,
    pub tags: Vec<String>,
    pub published: Timestamp,
}

impl Header {
    /// A header's publication instant is a valid instant.
    pub open spec fn wf(self) -> bool {
        self.published.wf()
    }

    /// The header's title.
    pub fn title(&self) -> (r: &String)
        ensures
            r == self.title,
    {
        &self.title
    }

    /// The header's title, for mutation.
    pub fn title_mut(&mut self) -> (r: &mut String)
        ensures
            *r == old(self).title,
            final(self).title == *final(r),
            final(self).subtitle == old(self).subtitle,
            final(self).author == old(self).author,
            final(self).tags == old(self).tags,
            final(self).published == old(self).published,
    {
        &mut self.title
    }

    /// The header's subtitle, if any.
    pub fn subtitle(&self) -> (r: &Option<String>)
        ensures
            r == self.subtitle,
    {
        &self.subtitle
    }

    /// The header's subtitle, for mutation.
    pub fn subtitle_mut(&mut self) -> (r: &mut Option<String>)
        ensures
            *r == old(self).subtitle,
            final(self).subtitle == *final(r),
            final(self).title == old(self).title,
            final(self).author == old(self).author,
            final(self).tags == old(self).tags,
            final(self).published == old(self).published,
    {
        &mut self.subtitle
    }

    /// The header's author.
    pub fn author(&self) -> (r: &String)
        ensures
            r == self.author,
    {
        &self.author
    }

    /// The header's author, for mutation.
    pub fn author_mut(&mut self) -> (r: &mut String)
        ensures
            *r == old(self).author,
            final(self).author == *final(r),
            final(self).title == old(self).title,
            final(self).subtitle == old(self).subtitle,
            final(self).tags == old(self).tags,
            final(self).published == old(self).published,
    {
        &mut self.author
    }

    /// The header's tags.
    pub fn tags(&self) -> (r: &Vec<String>)
        ensures
            r == self.tags,
    {
        &self.tags
    }

    /// The header's tags, for mutation.
    pub fn tags_mut(&mut self) -> (r: &mut Vec<String>)
        ensures
            *r == old(self).tags,
            final(self).tags == *final(r),
            final(self).title == old(self).title,
            final(self).subtitle == old(self).subtitle,
            final(self).author == old(self).author,
            final(self).published == old(self).published,
    {
        &mut self.tags
    }

    /// The header's publication instant.
    pub fn published(&self) -> (r: Timestamp)
        ensures
            r == self.published,
    {
        self.published
    }

    /// The header's publication instant, for mutation.
    pub fn published_mut(&mut self) -> (r: &mut Timestamp)
        ensures
            *r == old(self).published,
            final(self).published == *final(r),
            final(self).title == old(self).title,
            final(self).subtitle == old(self).subtitle,
            final(self).author == old(self).author,
            final(self).tags == old(self).tags,
    {
        &mut self.published
    }
}

} // verus!
