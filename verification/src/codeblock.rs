//! Code block rendering: an optional `@@ ... @@` context caption is
//! stripped from the block's first line, a syntax definition is resolved
//! from the declared language tag (falling back to plain text), the
//! source is highlighted line by line, and the result is framed in
//! `<div class="codeblock">` markup with a banner when a language or a
//! caption is present. Rendering never fails, whatever the language tag.

use vstd::prelude::*;
use vstd::string::StringExecFns;

use crate::text::chars_to_string;
use crate::text::escape_html;
use crate::text::first_ch;
use crate::text::lemma_first_ch_is;
use crate::text::spec_escape;
use crate::text::spec_trim;
use crate::text::str_to_char_vec;
use crate::text::subvec;
use crate::text::trim;

verus! {

#[verifier::external_type_specification]
#[verifier::external_body]
pub struct ExSyntaxSet(syntect::parsing::SyntaxSet);

#[verifier::external_type_specification]
#[verifier::external_body]
pub struct ExSyntaxReference(syntect::parsing::SyntaxReference);

#[verifier::external_type_specification]
#[verifier::external_body]
pub struct ExClassedHTMLGenerator<'a>(syntect::html::ClassedHTMLGenerator<'a>);

/// Relies on `SyntaxSet::load_defaults_newlines`: the syntax definitions
/// embedded in the binary, with newline-including line handling.
#[verifier::external_body]
fn load_default_syntax_set() -> syntect::parsing::SyntaxSet {
    syntect::parsing::SyntaxSet::load_defaults_newlines()
}

/// Relies on `SyntaxSet::find_syntax_by_token`: a syntax for the token,
/// by extension or case-insensitive name, when the set has one.
#[verifier::external_body]
fn find_syntax_by_token<'s>(
    ss: &'s syntect::parsing::SyntaxSet,
    token: &str,
) -> Option<&'s syntect::parsing::SyntaxReference> {
    ss.find_syntax_by_token(token)
}

/// Relies on `SyntaxSet::find_syntax_by_name`: a syntax with exactly
/// this name, when the set has one.
#[verifier::external_body]
fn find_syntax_by_name<'s>(
    ss: &'s syntect::parsing::SyntaxSet,
    name: &str,
) -> Option<&'s syntect::parsing::SyntaxReference> {
    ss.find_syntax_by_name(name)
}

/// Relies on `ClassedHTMLGenerator::new_with_class_style`: a fresh
/// generator emitting `class` attributes with the given prefix.
#[verifier::external_body]
fn new_classed_generator<'a>(
    syntax: &'a syntect::parsing::SyntaxReference,
    ss: &'a syntect::parsing::SyntaxSet,
    prefix: &'static str,
) -> syntect::html::ClassedHTMLGenerator<'a> {
    syntect::html::ClassedHTMLGenerator::new_with_class_style(
        syntax,
        ss,
        syntect::html::ClassStyle::SpacedPrefixed { prefix },
    )
}

/// Relies on `ClassedHTMLGenerator::parse_html_for_line_which_includes_newline`:
/// feeds one line (ending kept) to the generator; a per-line parse error
/// leaves that line's contribution best-effort.
#[verifier::external_body]
fn generator_feed_line(g: &mut syntect::html::ClassedHTMLGenerator, line: &str) {
    let _ = g.parse_html_for_line_which_includes_newline(line);
}

/// Relies on `ClassedHTMLGenerator::finalize`: the accumulated classed
/// HTML, with all entities escaped by syntect.
#[verifier::external_body]
fn generator_finalize(g: syntect::html::ClassedHTMLGenerator) -> String {
    g.finalize()
}

/// The lines of `s`, each keeping its newline; the last line may lack
/// one; an empty input has no lines.
pub open spec fn spec_lines_with_endings(s: Seq<char>) -> Seq<Seq<char>>
    decreases s.len(),
{
    if s.len() == 0 {
        Seq::empty()
    } else {
        let i = first_ch(s, '\n');
        if i >= s.len() {
            seq![s]
        } else {
            seq![s.take(i as int + 1)] + spec_lines_with_endings(s.skip(i as int + 1))
        }
    }
}

/// Split `v` into lines that keep their endings.
fn lines_with_endings(v: &[char]) -> (r: Vec<Vec<char>>)
    ensures
        r.deep_view() == spec_lines_with_endings(v@),
{
    let n: usize = v.len();
    let mut lines: Vec<Vec<char>> = Vec::new();
    let mut start: usize = 0;
    let mut i: usize = 0;
    proof {
        assert(v@.skip(0) =~= v@);
        assert(lines.deep_view() + spec_lines_with_endings(v@) =~~= spec_lines_with_endings(v@));
    }
    while i < n
        invariant
            start <= i <= n,
            n == v@.len(),
            forall|j: int| start <= j < i ==> v@[j] != '\n',
            spec_lines_with_endings(v@) == lines.deep_view() + spec_lines_with_endings(
                v@.skip(start as int),
            ),
        decreases n - i,
    {
        if v[i] == '\n' {
            let ghost pre = lines.deep_view();
            let line = subvec(v, start, i + 1);
            lines.push(line);
            proof {
                let rest = v@.skip(start as int);
                assert(forall|j: int| 0 <= j < rest.len() ==> rest[j] == v@[start + j]);
                lemma_first_ch_is(rest, '\n', (i - start) as nat);
                assert(rest.len() > 0);
                assert(rest.take(i - start + 1) =~= v@.subrange(start as int, i + 1));
                assert(rest.skip(i - start + 1) =~= v@.skip(i + 1));
                assert(spec_lines_with_endings(rest) == seq![v@.subrange(start as int, i + 1)]
                    + spec_lines_with_endings(v@.skip(i + 1)));
                assert(lines.deep_view() =~~= pre + seq![v@.subrange(start as int, i + 1)]);
                assert(lines.deep_view() + spec_lines_with_endings(v@.skip(i + 1))
                    =~~= spec_lines_with_endings(v@));
            }
            start = i + 1;
            i = start;
        } else {
            i = i + 1;
        }
    }
    if start < n {
        let ghost pre = lines.deep_view();
        let line = subvec(v, start, n);
        lines.push(line);
        proof {
            let rest = v@.skip(start as int);
            assert(forall|j: int| 0 <= j < rest.len() ==> rest[j] == v@[start + j]);
            lemma_first_ch_is(rest, '\n', rest.len() as nat);
            assert(rest.len() > 0);
            assert(spec_lines_with_endings(rest) == seq![rest]);
            assert(line@ =~= rest);
            assert(lines.deep_view() =~~= pre + seq![rest]);
            assert(spec_lines_with_endings(v@) =~~= lines.deep_view());
        }
    } else {
        proof {
            assert(v@.skip(start as int) =~= Seq::<char>::empty());
            assert(spec_lines_with_endings(v@.skip(start as int)) =~~= Seq::<Seq<char>>::empty());
            assert(spec_lines_with_endings(v@) =~~= lines.deep_view());
        }
    }
    lines
}

/// The context caption of a code block, and the source left to
/// highlight: when the block's first line, trimmed, is `@@ ... @@`, the
/// caption is the trimmed inside and the rest of the block is the
/// source; otherwise there is no caption and the whole block is the
/// source.
pub open spec fn spec_context_split(s: Seq<char>) -> (Option<Seq<char>>, Seq<char>) {
    let i = first_ch(s, '\n');
    if i >= s.len() {
        (None, s)
    } else {
        let first = spec_trim(s.take(i as int));
        if first.len() >= 4 && first.subrange(0, 2) == seq!['@', '@'] && first.subrange(
            first.len() - 2,
            first.len() as int,
        ) == seq!['@', '@'] {
            (Some(spec_trim(first.subrange(2, first.len() - 2))), s.skip(i as int + 1))
        } else {
            (None, s)
        }
    }
}

/// The code block markup: an outer `codeblock` division, a banner with
/// the escaped language tag and caption when either is present, and the
/// highlighted body in `<pre><code>`.
pub open spec fn spec_code_block_markup(
    lang: Seq<char>,
    ctx: Option<Seq<char>>,
    inner: Seq<char>,
) -> Seq<char> {
    "<div class=\"codeblock\">"@ + (if ctx is Some || lang.len() > 0 {
        "<div class=\"codeblock_banner\"><span class=\"codeblock_language\">"@ + spec_escape(lang)
            + "</span><span class=\"codeblock_context\">"@ + spec_escape(
            match ctx {
                Some(c) => c,
                None => Seq::empty(),
            },
        ) + "</span></div>"@
    } else {
        Seq::empty()
    }) + "<pre class=\"codeblock_code\"><code>"@ + inner + "</code></pre></div>"@
}

/// Renders fenced code blocks into classed, pre-escaped HTML. Holds the
/// syntax-definition database, loaded once; immutable afterwards.
pub struct CodeBlockRenderer {
    syntax_set: syntect::parsing::SyntaxSet,
}

impl CodeBlockRenderer {
    /// A renderer over the default syntax definitions.
    pub fn new() -> Self {
        Self { syntax_set: load_default_syntax_set() }
    }

    /// A renderer over the given syntax definitions.
    pub fn new_with_syntax_set(syntax_set: syntect::parsing::SyntaxSet) -> Self {
        Self { syntax_set }
    }

    /// Render one code block: never fails, whatever `lang`; the result
    /// is the codeblock markup around some highlighted body, with the
    /// language tag and the extracted context caption, both escaped, in
    /// the banner exactly when one of them is non-empty.
    pub fn render(&self, lang: &str, source: &str) -> (r: String)
        ensures
            exists|h: Seq<char>|
                r@ == spec_code_block_markup(lang@, spec_context_split(source@).0, h),
    {
        let src_chars = str_to_char_vec(source);
        let n: usize = src_chars.len();
        let nl = crate::text::find_char(src_chars.as_slice(), '\n');
        let (context, hl_source): (Option<String>, String) = if nl == n {
            (None, source.to_owned())
        } else {
            let first = trim(subvec(src_chars.as_slice(), 0, nl).as_slice());
            proof {
                assert(src_chars@.take(nl as int) =~= src_chars@.subrange(0, nl as int));
            }
            let fl: usize = first.len();
            if fl >= 4 && first[0] == '@' && first[1] == '@' && first[fl - 2] == '@' && first[fl
                - 1] == '@' {
                proof {
                    assert(first@.subrange(0, 2) =~= seq!['@', '@']);
                    assert(first@.subrange(fl - 2, fl as int) =~= seq!['@', '@']);
                }
                let caption = trim(subvec(first.as_slice(), 2, fl - 2).as_slice());
                let rest = subvec(src_chars.as_slice(), nl + 1, n);
                proof {
                    assert(src_chars@.skip(nl as int + 1) =~= src_chars@.subrange(
                        nl as int + 1,
                        n as int,
                    ));
                }
                (Some(chars_to_string(caption.as_slice())), chars_to_string(rest.as_slice()))
            } else {
                proof {
                    let f = spec_trim(src_chars@.take(nl as int));
                    if f.len() >= 4 && f.subrange(0, 2) == seq!['@', '@'] && f.subrange(
                        f.len() - 2,
                        f.len() as int,
                    ) == seq!['@', '@'] {
                        assert(f.subrange(0, 2)[0] == f[0] && f.subrange(0, 2)[1] == f[1]);
                        assert(f.subrange(f.len() - 2, f.len() as int)[0] == f[f.len() - 2]);
                        assert(f.subrange(f.len() - 2, f.len() as int)[1] == f[f.len() - 1]);
                    }
                }
                (None, source.to_owned())
            }
        };
        let ghost ctx_spec = spec_context_split(source@);
        proof {
            assert(context.deep_view() == ctx_spec.0);
        }
        let syntax_opt = find_syntax_by_token(&self.syntax_set, lang);
        let highlighted: String = match syntax_opt {
            Some(syntax) => self.highlight_with(syntax, &hl_source),
            None => {
                match find_syntax_by_name(&self.syntax_set, "Plain Text") {
                    Some(syntax) => self.highlight_with(syntax, &hl_source),
                    None => escape_html(&hl_source),
                }
            },
        };
        let mut out: String = String::new();
        out.append("<div class=\"codeblock\">");
        let show_banner: bool = context.is_some() || lang.unicode_len() > 0;
        if show_banner {
            out.append("<div class=\"codeblock_banner\"><span class=\"codeblock_language\">");
            let lang_esc = escape_html(lang);
            out.append(lang_esc.as_str());
            out.append("</span><span class=\"codeblock_context\">");
            let ctx_esc = match &context {
                Some(c) => escape_html(c.as_str()),
                None => String::new(),
            };
            proof {
                assert(ctx_esc@ == spec_escape(
                    match ctx_spec.0 {
                        Some(c) => c,
                        None => Seq::<char>::empty(),
                    },
                ));
            }
            out.append(ctx_esc.as_str());
            out.append("</span></div>");
        }
        out.append("<pre class=\"codeblock_code\"><code>");
        out.append(highlighted.as_str());
        out.append("</code></pre></div>");
        proof {
            assert(out@ =~= spec_code_block_markup(lang@, ctx_spec.0, highlighted@));
        }
        out
    }

    /// Highlight `source` line by line with the given syntax.
    fn highlight_with(
        &self,
        syntax: &syntect::parsing::SyntaxReference,
        source: &str,
    ) -> String {
        let mut generator = new_classed_generator(syntax, &self.syntax_set, "cb_");
        let src_chars = str_to_char_vec(source);
        let lines = lines_with_endings(src_chars.as_slice());
        let mut k: usize = 0;
        let nl: usize = lines.len();
        while k < nl
            invariant
                k <= nl,
                nl == lines@.len(),
            decreases nl - k,
        {
            let line = chars_to_string(lines[k].as_slice());
            generator_feed_line(&mut generator, line.as_str());
            k = k + 1;
        }
        generator_finalize(generator)
    }
}

} // verus!
