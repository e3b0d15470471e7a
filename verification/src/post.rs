//! The rendered document: the immutable unit the store holds. Parsing
//! turns a raw post file into a structured header plus a rendered HTML
//! body, stamps it with a deterministic per-identifier UUID and the
//! observed update time, and never mutates it afterwards.

use vstd::prelude::*;

use crate::codeblock::CodeBlockRenderer;
use crate::decode::decode_header;
use crate::decode::header_matches;
use crate::decode::spec_decode_header;
use crate::error::Error;
use crate::header::Header;
use crate::id::Id;
use crate::render::render_markdown;
use crate::source::spec_split_source;
use crate::source::PostSource;
use crate::text::str_to_char_vec;
use crate::time::Timestamp;
use crate::uuid::uuid_v5_of;
use crate::uuid::Uuid;

verus! {

/// A post whose header is decoded but whose body is still markdown.
pub struct MarkdownPost {
    pub header: Header,
    pub markdown: String,
}

impl MarkdownPost {
    /// The decoded header.
    pub fn header(&self) -> (r: &Header)
        ensures
            r == self.header,
    {
        &self.header
    }

    /// The markdown body.
    pub fn markdown(&self) -> (r: &String)
        ensures
            r == self.markdown,
    {
        &self.markdown
    }

    /// Decode a split source's header half; the body carries over.
    pub fn from_source(source: PostSource) -> (r: Result<MarkdownPost, Error>)
        ensures
            match (r, spec_decode_header(source.header@)) {
                (Ok(p), Ok(sh)) => header_matches(p.header, sh) && p.header.wf() && p.markdown
                    == source.markdown,
                (Err(e), Err(se)) => e == Error::Header(se),
                _ => false,
            },
    {
        let header_chars = str_to_char_vec(source.header.as_str());
        match decode_header(header_chars.as_slice()) {
            Ok(header) => Ok(MarkdownPost { header, markdown: source.markdown }),
            Err(e) => Err(Error::Header(e)),
        }
    }
}

/// The rendered document: identifier, decoded header, update instant,
/// deterministic UUID, and the body as trusted, pre-escaped HTML.
pub struct RenderedPost {
    pub uuid: Uuid,
    pub id: Id,
    pub header: Header,
    pub updated: Timestamp,
    pub html: String,
}

impl RenderedPost {
    /// A document's instants are valid instants.
    pub open spec fn wf(self) -> bool {
        self.header.wf() && self.updated.wf()
    }

    /// Parse and render a raw post file: split it on the header
    /// delimiter, decode the header, render the body, and stamp the
    /// document. Succeeds exactly when the delimiter is present and the
    /// header decodes.
    pub fn new_from_str(
        code_renderer: &CodeBlockRenderer,
        namespace: Uuid,
        id: Id,
        updated: Option<Timestamp>,
        source: &str,
    ) -> (r: Result<RenderedPost, Error>)
        requires
            updated matches Some(t) ==> t.wf(),
        ensures
            ({
                let sp = spec_split_source(source@);
                match r {
                    Ok(p) => {
                        &&& sp is Some
                        &&& spec_decode_header((sp->0).0) matches Ok(sh) && header_matches(
                            p.header,
                            sh,
                        )
                        &&& p.wf()
                        &&& p.id@ == id@
                        &&& p.uuid.value == uuid_v5_of(namespace.value, id@)
                        &&& p.updated == (match updated {
                            Some(t) => t,
                            None => Timestamp { secs: 0, nanos: 0 },
                        })
                    },
                    Err(Error::NoDelim) => sp is None,
                    Err(Error::Header(se)) => sp is Some && spec_decode_header((sp->0).0)
                        == Err::<crate::decode::SpecHeader, crate::decode::HeaderError>(se),
                }
            }),
    {
        let source = match PostSource::from_str(source) {
            Ok(s) => s,
            Err(e) => {
                return Err(e);
            },
        };
        Self::new_from_source(code_renderer, namespace, id, updated, source)
    }

    /// Render a split source into a document. Succeeds exactly when the
    /// header decodes.
    pub fn new_from_source(
        code_renderer: &CodeBlockRenderer,
        namespace: Uuid,
        id: Id,
        updated: Option<Timestamp>,
        source: PostSource,
    ) -> (r: Result<RenderedPost, Error>)
        requires
            updated matches Some(t) ==> t.wf(),
        ensures
            match (r, spec_decode_header(source.header@)) {
                (Ok(p), Ok(sh)) => {
                    &&& header_matches(p.header, sh)
                    &&& p.wf()
                    &&& p.id@ == id@
                    &&& p.uuid.value == uuid_v5_of(namespace.value, id@)
                    &&& p.updated == (match updated {
                        Some(t) => t,
                        None => Timestamp { secs: 0, nanos: 0 },
                    })
                },
                (Err(e), Err(se)) => e == Error::Header(se),
                _ => false,
            },
    {
        let post = match MarkdownPost::from_source(source) {
            Ok(p) => p,
            Err(e) => {
                return Err(e);
            },
        };
        let uuid = Uuid::new_v5(namespace, id.as_inner().as_str());
        let html = render_markdown(code_renderer, post.markdown.as_str());
        let updated = match updated {
            Some(t) => t,
            None => crate::time::unix_epoch(),
        };
        Ok(RenderedPost { uuid, id, header: post.header, updated, html })
    }

    /// The document's deterministic UUID.
    pub fn uuid(&self) -> (r: Uuid)
        ensures
            r == self.uuid,
    {
        self.uuid
    }

    /// The document's identifier.
    pub fn id(&self) -> (r: &Id)
        ensures
            r == self.id,
    {
        &self.id
    }

    /// The document's header.
    pub fn header(&self) -> (r: &Header)
        ensures
            r == self.header,
    {
        &self.header
    }

    /// The header's title.
    pub fn title(&self) -> (r: &String)
        ensures
            r == self.header.title,
    {
        &self.header.title
    }

    /// The header's subtitle, if any.
    pub fn subtitle(&self) -> (r: &Option<String>)
        ensures
            r == self.header.subtitle,
    {
        &self.header.subtitle
    }

    /// The header's author.
    pub fn author(&self) -> (r: &String)
        ensures
            r == self.header.author,
    {
        &self.header.author
    }

    /// The header's tags.
    pub fn tags(&self) -> (r: &Vec<String>)
        ensures
            r == self.header.tags,
    {
        &self.header.tags
    }

    /// The publication instant.
    pub fn published(&self) -> (r: Timestamp)
        ensures
            r == self.header.published,
    {
        self.header.published
    }

    /// The update instant.
    pub fn updated(&self) -> (r: Timestamp)
        ensures
            r == self.updated,
    {
        self.updated
    }

    /// The rendered body: trusted, pre-escaped HTML.
    pub fn html(&self) -> (r: &String)
        ensures
            r == self.html,
    {
        &self.html
    }
}

} // verus!
