//! The markdown-to-HTML transform. The markdown parser and HTML emitter
//! are outside work; between the two, the event stream is rewritten by a
//! verified pass: a fenced code block's text is buffered from its start
//! event to its end event and replaced by one rendered code block, an
//! inline code span becomes a fixed inline wrapper, and every other
//! event passes through untouched.

use vstd::prelude::*;
use vstd::string::StringExecFns;

use crate::codeblock::CodeBlockRenderer;
use crate::text::escape_html;
use crate::text::spec_escape;

verus! {

#[verifier::external_type_specification]
#[verifier::external_body]
pub struct ExEvent<'a>(pulldown_cmark::Event<'a>);

/// Relies on `pulldown_cmark::Parser::new_ext`: the markdown event
/// stream of `text`, with tables, footnotes and strikethrough enabled.
#[verifier::external_body]
fn md_parse_events<'i>(text: &'i str) -> Vec<pulldown_cmark::Event<'i>> {
    let options = pulldown_cmark::Options::ENABLE_TABLES.union(
        pulldown_cmark::Options::ENABLE_FOOTNOTES,
    ).union(pulldown_cmark::Options::ENABLE_STRIKETHROUGH);
    pulldown_cmark::Parser::new_ext(text, options).collect()
}

/// Relies on `pulldown_cmark::html::push_html`: the HTML the event
/// sequence renders to.
#[verifier::external_body]
fn md_push_html(events: Vec<pulldown_cmark::Event>) -> String {
    let mut out = String::new();
    pulldown_cmark::html::push_html(&mut out, events.into_iter());
    out
}

/// What the rewrite pass reads off one markdown event.
pub enum MdEventKind {
    /// The start of a fenced code block, with its language tag.
    FencedCodeStart { lang: String },
    /// The end of a code block.
    CodeBlockEnd,
    /// A text node, with its text.
    Text { text: String },
    /// An inline code span, with its code.
    InlineCode { code: String },
    /// Any other event.
    Other,
}

/// Relies on `pulldown_cmark::Event`'s variants: which of the five kinds
/// the event is, with the text moved out where the kind carries any.
#[verifier::external_body]
fn md_event_kind(e: &pulldown_cmark::Event) -> MdEventKind {
    match e {
        pulldown_cmark::Event::Start(
            pulldown_cmark::Tag::CodeBlock(pulldown_cmark::CodeBlockKind::Fenced(lang)),
        ) => MdEventKind::FencedCodeStart { lang: lang.clone().into_string() },
        pulldown_cmark::Event::End(pulldown_cmark::Tag::CodeBlock(_)) => MdEventKind::CodeBlockEnd,
        pulldown_cmark::Event::Text(text) => MdEventKind::Text { text: text.clone().into_string() },
        pulldown_cmark::Event::Code(code) => MdEventKind::InlineCode {
            code: code.clone().into_string(),
        },
        _ => MdEventKind::Other,
    }
}

/// Relies on `pulldown_cmark::Event::Html` and `CowStr::Boxed`: the
/// event that emits `html` verbatim.
#[verifier::external_body]
fn md_event_html<'a>(html: String) -> pulldown_cmark::Event<'a> {
    pulldown_cmark::Event::Html(pulldown_cmark::CowStr::Boxed(html.into_boxed_str()))
}

/// Relies on `pulldown_cmark::Event`'s `Clone`: an equal event.
#[verifier::external_body]
fn md_event_clone<'a>(e: &pulldown_cmark::Event<'a>) -> pulldown_cmark::Event<'a> {
    e.clone()
}

/// One step of the planned rewrite, as mathematical values.
pub ghost enum SpecStep {
    /// Pass the input event at this position through untouched.
    Keep(int),
    /// Replace an inline code span carrying this code.
    Inline(Seq<char>),
    /// Replace a whole fenced block: its language tag and buffered text.
    Block { lang: Seq<char>, code: Seq<char> },
}

/// One step of the planned rewrite.
pub enum RewriteStep {
    /// Pass the input event at this position through untouched.
    Keep { index: usize },
    /// Replace an inline code span carrying this code.
    Inline { code: String },
    /// Replace a whole fenced block: its language tag and buffered text.
    Block { lang: String, code: String },
}

impl View for RewriteStep {
    type V = SpecStep;

    open spec fn view(&self) -> SpecStep {
        match self {
            RewriteStep::Keep { index } => SpecStep::Keep(*index as int),
            RewriteStep::Inline { code } => SpecStep::Inline(code@),
            RewriteStep::Block { lang, code } => SpecStep::Block { lang: lang@, code: code@ },
        }
    }
}

/// Where the rewrite scan stands: outside any fenced block, or inside
/// one, buffering its text.
pub ghost enum SpecMdMode {
    Normal,
    InBlock { lang: Seq<char>, code: Seq<char> },
}

/// Run the rewrite scan from position `i`. Outside a block, a fenced
/// start opens a block, an inline code span becomes an `Inline` step,
/// and everything else is kept; inside a block, text events are
/// buffered, every other event is dropped, and the block's end (or the
/// end of the stream) closes it into one `Block` step.
pub open spec fn spec_plan_run(
    ks: Seq<MdEventKind>,
    i: int,
    mode: SpecMdMode,
    acc: Seq<SpecStep>,
) -> Seq<SpecStep>
    decreases ks.len() - i,
{
    if i < 0 || i >= ks.len() {
        match mode {
            SpecMdMode::Normal => acc,
            SpecMdMode::InBlock { lang, code } => acc.push(SpecStep::Block { lang, code }),
        }
    } else {
        match mode {
            SpecMdMode::Normal => match ks[i] {
                MdEventKind::FencedCodeStart { lang } => spec_plan_run(
                    ks,
                    i + 1,
                    SpecMdMode::InBlock { lang: lang@, code: Seq::empty() },
                    acc,
                ),
                MdEventKind::InlineCode { code } => spec_plan_run(
                    ks,
                    i + 1,
                    SpecMdMode::Normal,
                    acc.push(SpecStep::Inline(code@)),
                ),
                _ => spec_plan_run(ks, i + 1, SpecMdMode::Normal, acc.push(SpecStep::Keep(i))),
            },
            SpecMdMode::InBlock { lang, code } => match ks[i] {
                MdEventKind::CodeBlockEnd => spec_plan_run(
                    ks,
                    i + 1,
                    SpecMdMode::Normal,
                    acc.push(SpecStep::Block { lang, code }),
                ),
                MdEventKind::Text { text } => spec_plan_run(
                    ks,
                    i + 1,
                    SpecMdMode::InBlock { lang, code: code + text@ },
                    acc,
                ),
                _ => spec_plan_run(ks, i + 1, SpecMdMode::InBlock { lang, code }, acc),
            },
        }
    }
}

/// The rewrite plan of an event-kind sequence.
pub open spec fn spec_plan(ks: Seq<MdEventKind>) -> Seq<SpecStep> {
    spec_plan_run(ks, 0, SpecMdMode::Normal, Seq::empty())
}

/// Every `Keep` step of a plan points into the input.
pub proof fn lemma_plan_run_indices(
    ks: Seq<MdEventKind>,
    i: int,
    mode: SpecMdMode,
    acc: Seq<SpecStep>,
)
    requires
        forall|k: int|
            0 <= k < acc.len() ==> ((#[trigger] acc[k]) matches SpecStep::Keep(j) ==> 0 <= j
                < ks.len()),
    ensures
        forall|k: int|
            0 <= k < spec_plan_run(ks, i, mode, acc).len() ==> ((#[trigger] spec_plan_run(
                ks,
                i,
                mode,
                acc,
            )[k]) matches SpecStep::Keep(j) ==> 0 <= j < ks.len()),
    decreases ks.len() - i,
{
    if i < 0 || i >= ks.len() {
    } else {
        match mode {
            SpecMdMode::Normal => match ks[i] {
                MdEventKind::FencedCodeStart { lang } => {
                    lemma_plan_run_indices(
                        ks,
                        i + 1,
                        SpecMdMode::InBlock { lang: lang@, code: Seq::empty() },
                        acc,
                    );
                },
                MdEventKind::InlineCode { code } => {
                    lemma_plan_run_indices(
                        ks,
                        i + 1,
                        SpecMdMode::Normal,
                        acc.push(SpecStep::Inline(code@)),
                    );
                },
                _ => {
                    lemma_plan_run_indices(
                        ks,
                        i + 1,
                        SpecMdMode::Normal,
                        acc.push(SpecStep::Keep(i)),
                    );
                },
            },
            SpecMdMode::InBlock { lang, code } => match ks[i] {
                MdEventKind::CodeBlockEnd => {
                    lemma_plan_run_indices(
                        ks,
                        i + 1,
                        SpecMdMode::Normal,
                        acc.push(SpecStep::Block { lang, code }),
                    );
                },
                MdEventKind::Text { text } => {
                    lemma_plan_run_indices(
                        ks,
                        i + 1,
                        SpecMdMode::InBlock { lang, code: code + text@ },
                        acc,
                    );
                },
                _ => {
                    lemma_plan_run_indices(ks, i + 1, SpecMdMode::InBlock { lang, code }, acc);
                },
            },
        }
    }
}

/// Where the executable rewrite scan stands.
enum MdMode {
    Normal,
    InBlock { lang: String, code: String },
}

impl View for MdMode {
    type V = SpecMdMode;

    closed spec fn view(&self) -> SpecMdMode {
        match self {
            MdMode::Normal => SpecMdMode::Normal,
            MdMode::InBlock { lang, code } => SpecMdMode::InBlock { lang: lang@, code: code@ },
        }
    }
}

/// The views of a step vector.
pub open spec fn steps_view(v: Seq<RewriteStep>) -> Seq<SpecStep> {
    v.map_values(|s: RewriteStep| s@)
}

/// Compute the rewrite plan of the event kinds.
pub fn plan_rewrite(kinds: &Vec<MdEventKind>) -> (r: Vec<RewriteStep>)
    ensures
        steps_view(r@) == spec_plan(kinds@),
{
    let n: usize = kinds.len();
    let mut acc: Vec<RewriteStep> = Vec::new();
    let mut mode = MdMode::Normal;
    let mut i: usize = 0;
    proof {
        assert(steps_view(acc@) =~= Seq::<SpecStep>::empty());
    }
    while i < n
        invariant
            i <= n,
            n == kinds@.len(),
            spec_plan(kinds@) == spec_plan_run(kinds@, i as int, mode@, steps_view(acc@)),
        decreases n - i,
    {
        let ghost pre = steps_view(acc@);
        let cur = mode;
        match cur {
            MdMode::Normal => {
                match &kinds[i] {
                    MdEventKind::FencedCodeStart { lang } => {
                        mode = MdMode::InBlock { lang: lang.clone(), code: String::new() };
                    },
                    MdEventKind::InlineCode { code } => {
                        acc.push(RewriteStep::Inline { code: code.clone() });
                        mode = MdMode::Normal;
                        proof {
                            assert(steps_view(acc@) =~= pre.push(SpecStep::Inline(code@)));
                        }
                    },
                    _ => {
                        acc.push(RewriteStep::Keep { index: i });
                        mode = MdMode::Normal;
                        proof {
                            assert(steps_view(acc@) =~= pre.push(SpecStep::Keep(i as int)));
                        }
                    },
                }
            },
            MdMode::InBlock { lang, code } => {
                match &kinds[i] {
                    MdEventKind::CodeBlockEnd => {
                        let ghost glang = lang@;
                        let ghost gcode = code@;
                        acc.push(RewriteStep::Block { lang, code });
                        mode = MdMode::Normal;
                        proof {
                            assert(steps_view(acc@) =~= pre.push(
                                SpecStep::Block { lang: glang, code: gcode },
                            ));
                        }
                    },
                    MdEventKind::Text { text } => {
                        let mut code2 = code;
                        code2.append(text.as_str());
                        mode = MdMode::InBlock { lang, code: code2 };
                    },
                    _ => {
                        mode = MdMode::InBlock { lang, code };
                    },
                }
            },
        }
        i = i + 1;
    }
    proof {
        assert(spec_plan(kinds@) == spec_plan_run(kinds@, n as int, mode@, steps_view(acc@)));
    }
    match mode {
        MdMode::Normal => acc,
        MdMode::InBlock { lang, code } => {
            let ghost pre = steps_view(acc@);
            let ghost glang = lang@;
            let ghost gcode = code@;
            let mut acc2 = acc;
            acc2.push(RewriteStep::Block { lang, code });
            proof {
                assert(steps_view(acc2@) =~= pre.push(SpecStep::Block { lang: glang, code: gcode }));
            }
            acc2
        },
    }
}

/// The inline code markup: the span's code, escaped, in a fixed wrapper.
pub open spec fn spec_inline_code_markup(code: Seq<char>) -> Seq<char> {
    "<code class=\"inline_code\">"@ + spec_escape(code) + "</code>"@
}

/// Wrap one inline code span in the fixed inline markup.
pub fn inline_code_markup(code: &str) -> (r: String)
    ensures
        r@ == spec_inline_code_markup(code@),
{
    let mut out: String = String::new();
    out.append("<code class=\"inline_code\">");
    let esc = escape_html(code);
    out.append(esc.as_str());
    out.append("</code>");
    proof {
        assert(out@ =~= spec_inline_code_markup(code@));
    }
    out
}

/// Apply a rewrite plan to the events it was planned over: kept events
/// pass through, the other steps become HTML events.
fn apply_rewrite<'a>(
    events: &Vec<pulldown_cmark::Event<'a>>,
    steps: &Vec<RewriteStep>,
    renderer: &CodeBlockRenderer,
) -> (r: Vec<pulldown_cmark::Event<'a>>)
    requires
        forall|k: int|
            0 <= k < steps@.len() ==> ((#[trigger] steps@[k]@) matches SpecStep::Keep(j) ==> 0 <= j
                < events@.len()),
    ensures
        r@.len() == steps@.len(),
{
    let n: usize = steps.len();
    let mut out: Vec<pulldown_cmark::Event<'a>> = Vec::new();
    let mut k: usize = 0;
    while k < n
        invariant
            k <= n,
            n == steps@.len(),
            out@.len() == k,
            forall|j: int|
                0 <= j < steps@.len() ==> ((#[trigger] steps@[j]@) matches SpecStep::Keep(x) ==> 0
                    <= x < events@.len()),
        decreases n - k,
    {
        match &steps[k] {
            RewriteStep::Keep { index } => {
                proof {
                    assert(steps@[k as int]@ == SpecStep::Keep(*index as int));
                }
                out.push(md_event_clone(&events[*index]));
            },
            RewriteStep::Inline { code } => {
                out.push(md_event_html(inline_code_markup(code.as_str())));
            },
            RewriteStep::Block { lang, code } => {
                out.push(md_event_html(renderer.render(lang.as_str(), code.as_str())));
            },
        }
        k = k + 1;
    }
    out
}

/// Turn a markdown body into HTML: parse it into events, rewrite code
/// blocks and inline code through the verified plan, and emit HTML. The
/// rewrite decisions are those of [`spec_plan`]; the parse and the HTML
/// emission are the markdown library's.
pub fn render_markdown(renderer: &CodeBlockRenderer, markdown: &str) -> String {
    let events = md_parse_events(markdown);
    let n: usize = events.len();
    let mut kinds: Vec<MdEventKind> = Vec::new();
    let mut i: usize = 0;
    while i < n
        invariant
            i <= n,
            n == events@.len(),
            kinds@.len() == i,
        decreases n - i,
    {
        kinds.push(md_event_kind(&events[i]));
        i = i + 1;
    }
    let steps = plan_rewrite(&kinds);
    proof {
        lemma_plan_run_indices(kinds@, 0, SpecMdMode::Normal, Seq::empty());
        assert forall|k: int|
            0 <= k < steps@.len() implies ((#[trigger] steps@[k]@) matches SpecStep::Keep(j) ==> 0
            <= j < events@.len()) by {
            assert(steps@[k]@ == steps_view(steps@)[k]);
        }
    }
    let out_events = apply_rewrite(&events, &steps, renderer);
    md_push_html(out_events)
}

} // verus!
