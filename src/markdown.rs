//! Markdown to styled HTML: a single pass over the parser's events that
//! carries whether it is inside a heading or an image, and the alt text.
use vstd::prelude::*;
use crate::paths::{ext_replaced, lemma_last_index_bounds, replace_file_extension};
use crate::cache::opt_view;
use pulldown_cmark::{CodeBlockKind, HeadingLevel, Tag, TagEnd};

verus! {

/// The level of a heading.
#[derive(Clone, Copy, Debug, PartialEq, Eq, Structural)]
pub enum Level {
    H1,
    H2,
    H3,
    H4,
    H5,
    H6,
}

/// One event of the markdown parser, as far as the transformer tells them
/// apart. `Other` carries the standard HTML of any other event.
#[derive(Debug)]
pub enum MdEvent {
    HeadingStart(Level),
    HeadingEnd(Level),
    Text(String),
    ImageStart { dest: String, title: String },
    ImageEnd,
    LinkStart { dest: String, title: String },
    LinkEnd,
    ParagraphStart,
    ParagraphEnd,
    /// A list opens: `start` is the first number of a numbered list, `None`
    /// for a bullet list; `html` is the standard HTML of the event.
    ListStart { start: Option<u64>, html: String },
    /// A list closes: `ordered` for a numbered list; `html` is the standard
    /// HTML of the event.
    ListEnd { ordered: bool, html: String },
    /// The language of a fenced block, or `None` for an indented one.
    CodeBlockStart(Option<String>),
    CodeBlockEnd,
    Code(String),
    Other(String),
}

/// The transformer's error: a heading opened inside another heading.
#[derive(Clone, Copy, Debug, PartialEq, Eq, Structural)]
pub enum MarkupError {
    NestedHeading,
}

/// An image to be rendered through the image partial template.
#[derive(Debug)]
pub struct ImageRequest {
    pub src: String,
    pub alt: String,
}

/// The name of the partial template that renders an image.
pub const IMAGE_PARTIAL: &'static str = "partials/image.html";

pub open spec fn heading_open(l: Level) -> Seq<char> {
    match l {
        Level::H1 => "<h1 class=\"text-3xl font-bold text-black-600 mb-6\">"@,
        Level::H2 => "<h2 class=\"text-2xl font-semibold text-black-500 mb-4\">"@,
        Level::H3 => "<h3 class=\"text-xl font-medium text-black-400 mb-2\">"@,
        Level::H4 => "<h4 class=\"text-xl font-medium text-black-300\">"@,
        Level::H5 => "<h5 class=\"text-xl font-medium text-black-300\">"@,
        Level::H6 => "<h6 class=\"text-xl font-medium text-black-300\">"@,
    }
}

pub open spec fn heading_close(l: Level) -> Seq<char> {
    match l {
        Level::H1 => "</h1>"@,
        Level::H2 => "</h2>"@,
        Level::H3 => "</h3>"@,
        Level::H4 => "</h4>"@,
        Level::H5 => "</h5>"@,
        Level::H6 => "</h6>"@,
    }
}

pub open spec fn link_open(dest: Seq<char>, title: Seq<char>) -> Seq<char> {
    "<a class=\"text-base font-bold leading-relaxed text-green-700\" href=\""@ + dest + "\" title=\""@
        + title + "\">"@
}

pub open spec fn code_block_open(lang: Option<Seq<char>>) -> Seq<char> {
    let class = match lang {
        Some(l) => "language-"@ + l,
        None => "language-none"@,
    };
    "<pre class=\"bg-gray-900 text-base font-normal text-white p-4 rounded-lg overflow-x-auto\"><code class=\""@
        + class + "\">"@
}

pub open spec fn inline_code(code: Seq<char>) -> Seq<char> {
    "<code class=\"bg-gray-200 font-normal text-red-600 px-1 py-0.5 rounded\">"@ + code + "</code>"@
}

/// Where an image refers to `dest`: the static folder, with the image
/// format that the static pipeline writes.
pub open spec fn image_source_of(dest: Seq<char>) -> Seq<char> {
    "./static/"@ + ext_replaced(dest, "webp"@)
}

/// Whatever its extension, an image is served from the static folder with
/// the `webp` extension.
pub proof fn lemma_image_source_is_static_webp(dest: Seq<char>)
    ensures
        image_source_of(dest).take(9) == "./static/"@,
        image_source_of(dest).len() >= 14,
        image_source_of(dest).skip(image_source_of(dest).len() - 5) == ".webp"@,
{
    reveal_strlit("./static/");
    reveal_strlit(".webp");
    reveal_strlit(".");
    reveal_strlit("webp");
    lemma_last_index_bounds(dest, '.');
    let r = image_source_of(dest);
    let e = ext_replaced(dest, "webp"@);
    assert(e.skip(e.len() - 5) =~= ".webp"@);
    assert(r.take(9) =~= "./static/"@);
    assert(r.skip(r.len() - 5) =~= e.skip(e.len() - 5));
}

/// The state carried from one event to the next.
pub struct TransformState {
    pub out: Seq<char>,
    pub in_heading: bool,
    pub in_image: bool,
    pub alt: Seq<char>,
    pub images: nat,
}

pub open spec fn initial_state() -> TransformState {
    TransformState { out: Seq::empty(), in_heading: false, in_image: false, alt: Seq::empty(), images: 0 }
}

/// One event: `None` where a heading starts inside a heading; `rendered`
/// holds what the image partial gave for each image, in order.
pub open spec fn step(s: TransformState, e: MdEvent, rendered: Seq<Seq<char>>) -> Option<TransformState> {
    match e {
        MdEvent::HeadingStart(l) => if s.in_heading {
            None
        } else {
            Some(TransformState { out: s.out + heading_open(l), in_heading: true, ..s })
        },
        MdEvent::HeadingEnd(l) => if s.in_heading {
            Some(TransformState { out: s.out + heading_close(l), in_heading: false, ..s })
        } else {
            Some(s)
        },
        MdEvent::Text(t) => if s.in_image {
            Some(TransformState { alt: t@, in_image: false, ..s })
        } else {
            Some(TransformState { out: s.out + t@, ..s })
        },
        MdEvent::ImageStart { dest, title } => Some(
            TransformState {
                out: s.out + rendered[s.images as int],
                in_image: true,
                alt: Seq::empty(),
                images: s.images + 1,
                ..s
            },
        ),
        MdEvent::ImageEnd => Some(s),
        MdEvent::LinkStart { dest, title } => Some(TransformState { out: s.out + link_open(dest@, title@), ..s }),
        MdEvent::LinkEnd => Some(TransformState { out: s.out + "</a>"@, ..s }),
        MdEvent::ParagraphStart => Some(
            TransformState { out: s.out + "<p class=\"text-base font-normal leading-relaxed\">"@, ..s },
        ),
        MdEvent::ParagraphEnd => Some(TransformState { out: s.out + "</p>"@, ..s }),
        MdEvent::ListStart { start, html } => Some(
            TransformState {
                out: s.out + if start is None {
                    "<ul class=\"list-disc text-base font-normal list-inside ml-4\">"@
                } else {
                    html@
                },
                ..s
            },
        ),
        MdEvent::ListEnd { ordered, html } => Some(
            TransformState {
                out: s.out + if ordered {
                    html@
                } else {
                    "</ul>"@
                },
                ..s
            },
        ),
        MdEvent::CodeBlockStart(lang) => Some(
            TransformState {
                out: s.out + code_block_open(
                    match lang {
                        Some(l) => Some(l@),
                        None => None,
                    },
                ),
                ..s
            },
        ),
        MdEvent::CodeBlockEnd => Some(TransformState { out: s.out + "</code></pre>"@, ..s }),
        MdEvent::Code(c) => Some(TransformState { out: s.out + inline_code(c@), ..s }),
        MdEvent::Other(h) => Some(TransformState { out: s.out + h@, ..s }),
    }
}

/// The state after all of `events`, or `None` where a heading was nested.
pub open spec fn run(events: Seq<MdEvent>, rendered: Seq<Seq<char>>) -> Option<TransformState>
    decreases events.len(),
{
    if events.len() == 0 {
        Some(initial_state())
    } else {
        match run(events.drop_last(), rendered) {
            Some(s) => step(s, events.last(), rendered),
            None => None,
        }
    }
}

/// The number of images among `events`.
pub open spec fn image_count(events: Seq<MdEvent>) -> nat
    decreases events.len(),
{
    if events.len() == 0 {
        0
    } else {
        image_count(events.drop_last()) + if events.last() is ImageStart {
            1nat
        } else {
            0nat
        }
    }
}

/// The images among `events`, in order, each with its source and alt text.
pub open spec fn image_requests_of(events: Seq<MdEvent>) -> Seq<(Seq<char>, Seq<char>)>
    decreases events.len(),
{
    if events.len() == 0 {
        Seq::empty()
    } else {
        let rest = image_requests_of(events.drop_last());
        match events.last() {
            MdEvent::ImageStart { dest, title } => rest.push((image_source_of(dest@), title@)),
            _ => rest,
        }
    }
}

proof fn lemma_image_count_prefix(events: Seq<MdEvent>, k: int)
    requires
        0 <= k <= events.len(),
    ensures
        image_count(events.take(k)) <= image_count(events),
    decreases events.len(),
{
    if k < events.len() {
        assert(events.take(k) =~= events.drop_last().take(k));
        lemma_image_count_prefix(events.drop_last(), k);
    } else {
        assert(events.take(k) =~= events);
    }
}

proof fn lemma_requests_len(events: Seq<MdEvent>)
    ensures
        image_requests_of(events).len() == image_count(events),
    decreases events.len(),
{
    if events.len() > 0 {
        lemma_requests_len(events.drop_last());
    }
}

proof fn lemma_run_stays_failed(events: Seq<MdEvent>, k: int, rendered: Seq<Seq<char>>)
    requires
        0 <= k <= events.len(),
        run(events.take(k), rendered) is None,
    ensures
        run(events, rendered) is None,
    decreases events.len() - k,
{
    if k < events.len() {
        assert(events.take(k + 1).drop_last() =~= events.take(k));
        lemma_run_stays_failed(events, k + 1, rendered);
    } else {
        assert(events.take(k) =~= events);
    }
}

proof fn lemma_run_images(events: Seq<MdEvent>, rendered: Seq<Seq<char>>)
    requires
        run(events, rendered) is Some,
    ensures
        run(events, rendered)->Some_0.images == image_count(events),
    decreases events.len(),
{
    if events.len() > 0 {
        lemma_run_images(events.drop_last(), rendered);
    }
}

proof fn lemma_heading_stays_open(events: Seq<MdEvent>, rendered: Seq<Seq<char>>, i: int, k: int)
    requires
        0 <= i < k <= events.len(),
        events[i] is HeadingStart,
        forall|m: int| i < m < k ==> !(events[m] is HeadingEnd),
    ensures
        match run(events.take(k), rendered) {
            Some(s) => s.in_heading,
            None => true,
        },
    decreases k - i,
{
    assert(events.take(k).drop_last() =~= events.take(k - 1));
    assert(events.take(k).last() == events[k - 1]);
    if k > i + 1 {
        lemma_heading_stays_open(events, rendered, i, k - 1);
    }
}

/// A heading that starts before an earlier one has ended makes the whole
/// transformation fail: the first heading is never closed silently.
pub proof fn lemma_nested_heading_rejected(events: Seq<MdEvent>, rendered: Seq<Seq<char>>, i: int, j: int)
    requires
        0 <= i < j < events.len(),
        events[i] is HeadingStart,
        events[j] is HeadingStart,
        forall|m: int| i < m < j ==> !(events[m] is HeadingEnd),
    ensures
        run(events, rendered) is None,
{
    lemma_heading_stays_open(events, rendered, i, j);
    assert(events.take(j + 1).drop_last() =~= events.take(j));
    assert(events.take(j + 1).last() == events[j]);
    lemma_run_stays_failed(events, j + 1, rendered);
}

fn heading_open_text(l: Level) -> (r: &'static str)
    ensures
        r@ == heading_open(l),
{
    match l {
        Level::H1 => "<h1 class=\"text-3xl font-bold text-black-600 mb-6\">",
        Level::H2 => "<h2 class=\"text-2xl font-semibold text-black-500 mb-4\">",
        Level::H3 => "<h3 class=\"text-xl font-medium text-black-400 mb-2\">",
        Level::H4 => "<h4 class=\"text-xl font-medium text-black-300\">",
        Level::H5 => "<h5 class=\"text-xl font-medium text-black-300\">",
        Level::H6 => "<h6 class=\"text-xl font-medium text-black-300\">",
    }
}

fn heading_close_text(l: Level) -> (r: &'static str)
    ensures
        r@ == heading_close(l),
{
    match l {
        Level::H1 => "</h1>",
        Level::H2 => "</h2>",
        Level::H3 => "</h3>",
        Level::H4 => "</h4>",
        Level::H5 => "</h5>",
        Level::H6 => "</h6>",
    }
}

/// Where an image that the markdown refers to as `dest` is served from.
pub fn image_source(dest: &str) -> (r: String)
    ensures
        r@ == image_source_of(dest@),
{
    let mut r = String::from_str("./static/");
    let swapped = replace_file_extension(dest, "webp");
    r.append(swapped.as_str());
    r
}

/// The images that `events` hold, in order: the source each is served from
/// and its title as alt text. The text inside an image is held in the
/// transformer's state as alt text but is not passed to the partial.
pub fn image_requests(events: &Vec<MdEvent>) -> (r: Vec<ImageRequest>)
    ensures
        r@.len() == image_requests_of(events@).len(),
        forall|i: int| 0 <= i < r@.len() ==> (#[trigger] r@[i]).src@ == image_requests_of(events@)[i].0
            && r@[i].alt@ == image_requests_of(events@)[i].1,
{
    let mut r: Vec<ImageRequest> = Vec::new();
    let mut i: usize = 0;
    while i < events.len()
        invariant
            i <= events@.len(),
            r@.len() == image_requests_of(events@.take(i as int)).len(),
            forall|j: int| 0 <= j < r@.len() ==> (#[trigger] r@[j]).src@ == image_requests_of(events@.take(i as int))[j].0
                && r@[j].alt@ == image_requests_of(events@.take(i as int))[j].1,
        decreases events@.len() - i,
    {
        proof {
            assert(events@.take(i + 1).drop_last() =~= events@.take(i as int));
            assert(events@.take(i + 1).last() == events@[i as int]);
        }
        match &events[i] {
            MdEvent::ImageStart { dest, title } => {
                let src = image_source(dest.as_str());
                r.push(ImageRequest { src, alt: title.clone() });
            },
            _ => {},
        }
        i = i + 1;
    }
    assert(events@.take(i as int) =~= events@);
    r
}

/// Turns the events of a markdown document into styled HTML. `rendered`
/// holds what the image partial gave for each image, in order. Fails where
/// a heading starts inside another heading.
pub fn transform_events(events: &Vec<MdEvent>, rendered: &Vec<String>) -> (r: Result<String, MarkupError>)
    requires
        rendered@.len() == image_count(events@),
    ensures
        r is Err <==> run(events@, rendered@.map_values(|s: String| s@)) is None,
        r matches Ok(out) ==> out@ == run(events@, rendered@.map_values(|s: String| s@))->Some_0.out,
{
    let ghost imgs = rendered@.map_values(|s: String| s@);
    let mut out = String::new();
    let mut in_heading = false;
    let mut in_image = false;
    let mut alt = String::new();
    let mut images: usize = 0;
    let n_rendered: usize = rendered.len();
    let mut i: usize = 0;
    while i < events.len()
        invariant
            i <= events@.len(),
            n_rendered == rendered@.len(),
            rendered@.len() == image_count(events@),
            imgs == rendered@.map_values(|s: String| s@),
            run(events@.take(i as int), imgs) == Some(
                TransformState { out: out@, in_heading, in_image, alt: alt@, images: images as nat },
            ),
        decreases events@.len() - i,
    {
        proof {
            assert(events@.take(i + 1).drop_last() =~= events@.take(i as int));
            assert(events@.take(i + 1).last() == events@[i as int]);
        }
        match &events[i] {
            MdEvent::HeadingStart(l) => {
                if in_heading {
                    proof {
                        lemma_run_stays_failed(events@, i + 1, imgs);
                    }
                    return Err(MarkupError::NestedHeading);
                }
                in_heading = true;
                out.append(heading_open_text(*l));
            },
            MdEvent::HeadingEnd(l) => {
                if in_heading {
                    out.append(heading_close_text(*l));
                    in_heading = false;
                }
            },
            MdEvent::Text(t) => {
                if in_image {
                    alt = t.clone();
                    in_image = false;
                } else {
                    out.append(t.as_str());
                }
            },
            MdEvent::ImageStart { .. } => {
                proof {
                    lemma_run_images(events@.take(i as int), imgs);
                    lemma_image_count_prefix(events@, i + 1);
                    assert(image_count(events@.take(i + 1)) == image_count(events@.take(i as int)) + 1);
                    assert(imgs[images as int] == rendered@[images as int]@);
                }
                in_image = true;
                alt = String::new();
                out.append(rendered[images].as_str());
                images = images + 1;
            },
            MdEvent::ImageEnd => {},
            MdEvent::LinkStart { dest, title } => {
                let mut piece = String::from_str(
                    "<a class=\"text-base font-bold leading-relaxed text-green-700\" href=\"",
                );
                piece.append(dest.as_str());
                piece.append("\" title=\"");
                piece.append(title.as_str());
                piece.append("\">");
                out.append(piece.as_str());
            },
            MdEvent::LinkEnd => {
                out.append("</a>");
            },
            MdEvent::ParagraphStart => {
                out.append("<p class=\"text-base font-normal leading-relaxed\">");
            },
            MdEvent::ParagraphEnd => {
                out.append("</p>");
            },
            MdEvent::ListStart { start, html } => {
                match start {
                    None => out.append("<ul class=\"list-disc text-base font-normal list-inside ml-4\">"),
                    Some(_) => out.append(html.as_str()),
                }
            },
            MdEvent::ListEnd { ordered, html } => {
                if *ordered {
                    out.append(html.as_str());
                } else {
                    out.append("</ul>");
                }
            },
            MdEvent::CodeBlockStart(lang) => {
                let class = match lang {
                    Some(l) => {
                        let mut c = String::from_str("language-");
                        c.append(l.as_str());
                        c
                    },
                    None => String::from_str("language-none"),
                };
                let mut piece = String::from_str(
                    "<pre class=\"bg-gray-900 text-base font-normal text-white p-4 rounded-lg overflow-x-auto\"><code class=\"",
                );
                piece.append(class.as_str());
                piece.append("\">");
                out.append(piece.as_str());
            },
            MdEvent::CodeBlockEnd => {
                out.append("</code></pre>");
            },
            MdEvent::Code(c) => {
                let mut piece = String::from_str(
                    "<code class=\"bg-gray-200 font-normal text-red-600 px-1 py-0.5 rounded\">",
                );
                piece.append(c.as_str());
                piece.append("</code>");
                out.append(piece.as_str());
            },
            MdEvent::Other(h) => {
                out.append(h.as_str());
            },
        }
        i = i + 1;
    }
    assert(events@.take(i as int) =~= events@);
    Ok(out)
}

#[verifier::external_type_specification]
#[verifier::external_body]
pub struct ExEvent<'a>(pulldown_cmark::Event<'a>);

#[verifier::external_type_specification]
#[verifier::external_body]
pub struct ExTag<'a>(pulldown_cmark::Tag<'a>);

#[verifier::external_type_specification]
#[verifier::external_body]
pub struct ExTagEnd(pulldown_cmark::TagEnd);

#[verifier::external_type_specification]
#[verifier::external_body]
pub struct ExHeadingLevel(pulldown_cmark::HeadingLevel);

#[verifier::external_type_specification]
#[verifier::external_body]
pub struct ExTera(tera::Tera);

/// The events that the markdown parser, with every extension on, gives for
/// a document.
pub uninterp spec fn markdown_events(md: Seq<char>) -> Seq<MdEvent>;

/// Relies on pulldown_cmark::Parser::new_ext with Options::all: the events
/// of the document depend on its text alone, and come in document order.
#[verifier::external_body]
fn parse_events(md: &str) -> (r: Vec<MdEvent>)
    ensures
        r@ == markdown_events(md@),
{
    pulldown_cmark::Parser::new_ext(md, pulldown_cmark::Options::all()).map(event_of).collect()
}

/// Relies on pulldown_cmark's event variants; moves their fields over.
#[verifier::external_body]
fn event_of(e: pulldown_cmark::Event<'_>) -> MdEvent {
    match e {
        pulldown_cmark::Event::Start(tag) => start_of(tag),
        pulldown_cmark::Event::End(end) => end_of(end),
        pulldown_cmark::Event::Text(t) => MdEvent::Text(t.to_string()),
        pulldown_cmark::Event::Code(c) => MdEvent::Code(c.to_string()),
        other => MdEvent::Other(standard_html(other)),
    }
}

/// Relies on pulldown_cmark's tag variants; moves their fields over.
#[verifier::external_body]
fn start_of(tag: pulldown_cmark::Tag<'_>) -> MdEvent {
    match tag {
        Tag::Heading { level, .. } => MdEvent::HeadingStart(level_of(level)),
        Tag::Image { dest_url, title, .. } => MdEvent::ImageStart { dest: dest_url.to_string(), title: title.to_string() },
        Tag::Link { dest_url, title, .. } => MdEvent::LinkStart { dest: dest_url.to_string(), title: title.to_string() },
        Tag::Paragraph => MdEvent::ParagraphStart,
        Tag::List(start) => MdEvent::ListStart { start, html: standard_html(pulldown_cmark::Event::Start(Tag::List(start))) },
        Tag::CodeBlock(CodeBlockKind::Fenced(lang)) => MdEvent::CodeBlockStart(Some(lang.to_string())),
        Tag::CodeBlock(CodeBlockKind::Indented) => MdEvent::CodeBlockStart(None),
        other => MdEvent::Other(standard_html(pulldown_cmark::Event::Start(other))),
    }
}

/// Relies on pulldown_cmark's tag end variants; moves their fields over.
#[verifier::external_body]
fn end_of(end: pulldown_cmark::TagEnd) -> MdEvent {
    match end {
        TagEnd::Heading(level) => MdEvent::HeadingEnd(level_of(level)),
        TagEnd::Image => MdEvent::ImageEnd,
        TagEnd::Link => MdEvent::LinkEnd,
        TagEnd::Paragraph => MdEvent::ParagraphEnd,
        TagEnd::List(ordered) => MdEvent::ListEnd { ordered, html: standard_html(pulldown_cmark::Event::End(TagEnd::List(ordered))) },
        TagEnd::CodeBlock => MdEvent::CodeBlockEnd,
        other => MdEvent::Other(standard_html(pulldown_cmark::Event::End(other))),
    }
}

/// Relies on pulldown_cmark::HeadingLevel, one variant per level.
#[verifier::external_body]
fn level_of(level: pulldown_cmark::HeadingLevel) -> Level {
    match level {
        HeadingLevel::H1 => Level::H1,
        HeadingLevel::H2 => Level::H2,
        HeadingLevel::H3 => Level::H3,
        HeadingLevel::H4 => Level::H4,
        HeadingLevel::H5 => Level::H5,
        HeadingLevel::H6 => Level::H6,
    }
}

/// Relies on pulldown_cmark::html::push_html: the standard HTML of one event.
#[verifier::external_body]
fn standard_html(e: pulldown_cmark::Event<'_>) -> String {
    let mut s = String::new();
    pulldown_cmark::html::push_html(&mut s, std::iter::once(e));
    s
}

/// Relies on tera::Tera::render: renders the template `name` with a context
/// that holds `src` and `alt`, or gives `None` where rendering fails. What
/// it renders depends on the templates that were loaded.
#[verifier::external_body]
fn render_image(tera: &tera::Tera, name: &str, src: &str, alt: &str) -> (r: Option<String>) {
    let mut context = tera::Context::new();
    context.insert("src", src);
    context.insert("alt", alt);
    tera.render(name, &context).ok()
}

/// What stands in the output for an image: what the partial rendered, or
/// a comment where rendering failed.
pub open spec fn image_html_of(rendered: Option<Seq<char>>) -> Seq<char> {
    match rendered {
        Some(h) => h,
        None => "<!-- Failed to render image -->"@,
    }
}

/// The HTML for each image, given what rendering each one gave.
pub open spec fn images_html(outcomes: Seq<Option<Seq<char>>>) -> Seq<Seq<char>> {
    outcomes.map_values(|o: Option<Seq<char>>| image_html_of(o))
}

/// What stands in the output for an image whose partial gave `rendered`.
pub fn image_html(rendered: Option<String>) -> (r: String)
    ensures
        r@ == image_html_of(opt_view(rendered)),
{
    match rendered {
        Some(h) => h,
        None => String::from_str("<!-- Failed to render image -->"),
    }
}

/// Turns markdown into styled HTML: parses it, renders each image through
/// the image partial (a comment stands where that fails), and transforms
/// the events. Fails where a heading starts inside another heading.
pub fn parse_markdown_with_tailwind(md_content: &str, tera: &tera::Tera) -> (r: Result<String, MarkupError>)
    ensures
        exists|outcomes: Seq<Option<Seq<char>>>|
            outcomes.len() == image_count(markdown_events(md_content@)) && (r is Err <==> run(
                markdown_events(md_content@),
                images_html(outcomes),
            ) is None) && (r matches Ok(out) ==> out@ == run(
                markdown_events(md_content@),
                images_html(outcomes),
            )->Some_0.out),
{
    let events = parse_events(md_content);
    let requests = image_requests(&events);
    let mut rendered: Vec<String> = Vec::new();
    let ghost mut outcomes: Seq<Option<Seq<char>>> = Seq::empty();
    let mut k: usize = 0;
    while k < requests.len()
        invariant
            k <= requests@.len(),
            rendered@.len() == k,
            outcomes.len() == k,
            forall|j: int| 0 <= j < k ==> (#[trigger] rendered@[j])@ == image_html_of(outcomes[j]),
        decreases requests@.len() - k,
    {
        let got = render_image(tera, IMAGE_PARTIAL, requests[k].src.as_str(), requests[k].alt.as_str());
        proof {
            outcomes = outcomes.push(opt_view(got));
        }
        rendered.push(image_html(got));
        k = k + 1;
    }
    proof {
        lemma_requests_len(events@);
        assert(rendered@.map_values(|s: String| s@) =~= images_html(outcomes));
    }
    transform_events(&events, &rendered)
}

} // verus!
