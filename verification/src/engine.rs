//! The rewrite of a chapter: its fenced code blocks marked with the info
//! string become diagrams, every other Markdown event passes through.

use vstd::prelude::*;
use crate::block::{dark_name, light_name, BlockText, DiagramBlock};
use crate::html::{inline_html, themed_file_html, themed_inline_html, BLOCK_SEPARATOR};
use crate::config::Config;
use crate::markdown::{CodeBlockModel, EventModel, LinkKind, TagEndModel, TagModel};
use crate::render::{diagram_events, diagram_texts, event_texts, run_count, runs_per_diagram, EventText, OutputEvent};
use crate::theme::texts;
use crate::theme_css::{style_tag, ThemeCssInjector};
use mdbook_markdown::pulldown_cmark::{CodeBlockKind, Event, LinkType, Tag, TagEnd};
use crate::text::{chars_of, is_white_space, is_white_space_char, string_of, trim, trim_chars, trim_str};

verus! {

/// What the rewrite reads of a Markdown event.
#[derive(Debug, Clone)]
pub enum EventKind {
    /// The start of a fenced code block with this info string.
    FencedCodeStart(String),
    /// Text.
    Text(String),
    /// The end of a code block.
    CodeBlockEnd,
    /// Any other event.
    Other,
}

/// An [`EventKind`] seen as texts.
pub enum KindText {
    FencedCodeStart(Seq<char>),
    Text(Seq<char>),
    CodeBlockEnd,
    Other,
}

impl View for EventKind {
    type V = KindText;

    open spec fn view(&self) -> KindText {
        match self {
            EventKind::FencedCodeStart(info) => KindText::FencedCodeStart(info@),
            EventKind::Text(t) => KindText::Text(t@),
            EventKind::CodeBlockEnd => KindText::CodeBlockEnd,
            EventKind::Other => KindText::Other,
        }
    }
}

/// A list of kinds seen as texts.
pub open spec fn kind_texts(v: Seq<EventKind>) -> Seq<KindText> {
    v.map_values(|k: EventKind| k@)
}

/// What the rewrite reads of a Markdown event.
pub open spec fn kind_of(event: EventModel) -> KindText {
    match event {
        EventModel::Start(TagModel::CodeBlock(CodeBlockModel::Fenced(info))) => KindText::FencedCodeStart(info),
        EventModel::Text(t) => KindText::Text(t),
        EventModel::End(TagEndModel::CodeBlock) => KindText::CodeBlockEnd,
        _ => KindText::Other,
    }
}

/// What the rewrite reads of each event.
pub open spec fn kinds_of(events: Seq<EventModel>) -> Seq<KindText> {
    events.map_values(|e: EventModel| kind_of(e))
}

/// What the rewrite does with one event.
#[derive(Debug, Clone)]
pub enum Step {
    /// The event is kept.
    Keep,
    /// The event is dropped: it belongs to a diagram block.
    Drop,
    /// The event closes a diagram block, which takes its place.
    Diagram(DiagramBlock),
}

/// A [`Step`] seen as texts.
pub enum StepText {
    Keep,
    Drop,
    Diagram(BlockText),
}

impl View for Step {
    type V = StepText;

    open spec fn view(&self) -> StepText {
        match self {
            Step::Keep => StepText::Keep,
            Step::Drop => StepText::Drop,
            Step::Diagram(b) => StepText::Diagram(b@),
        }
    }
}

/// A list of steps seen as texts.
pub open spec fn step_texts(v: Seq<Step>) -> Seq<StepText> {
    v.map_values(|s: Step| s@)
}

/// A diagram block whose end has not been reached yet.
pub struct OpenBlock {
    pub graph_name: Seq<char>,
    pub code: Seq<char>,
}

/// The state of the rewrite between two events: the open diagram block, if
/// any, and how many diagrams were closed before.
pub struct ScanState {
    pub open: Option<OpenBlock>,
    pub index: nat,
}

/// Whether a fenced code block's info string `info` marks a diagram: it is
/// `info_string`, or `info_string` followed by white space and the diagram's
/// title.
pub open spec fn info_marks(info_string: Seq<char>, info: Seq<char>) -> bool {
    &&& info_string.is_prefix_of(info)
    &&& (info.len() == info_string.len() || is_white_space(info[info_string.len() as int]))
}

/// The rewrite of one event: inside a diagram block, text is added to the
/// code, the end of the code block closes the diagram (code and chapter name
/// trimmed) and every other event is dropped; outside, a fenced code block
/// whose info string marks a diagram (see [`info_marks`]) opens a diagram
/// named by the trimmed rest of its info string, and every other event is kept.
pub open spec fn scan_step(st: ScanState, kind: KindText, info_string: Seq<char>, chapter_name: Seq<char>, chapter_dir: Seq<char>) -> (StepText, ScanState) {
    match st.open {
        Some(b) => match kind {
            KindText::Text(t) => (
                StepText::Drop,
                ScanState { open: Some(OpenBlock { graph_name: b.graph_name, code: b.code + t }), index: st.index },
            ),
            KindText::CodeBlockEnd => (
                StepText::Diagram(
                    BlockText {
                        graph_name: b.graph_name,
                        code: trim(b.code),
                        chapter_name: trim(chapter_name),
                        chapter_path: chapter_dir,
                        index: st.index,
                    },
                ),
                ScanState { open: None, index: st.index + 1 },
            ),
            _ => (StepText::Drop, st),
        },
        None => match kind {
            KindText::FencedCodeStart(info) => if info_marks(info_string, info) {
                (
                    StepText::Drop,
                    ScanState {
                        open: Some(OpenBlock { graph_name: trim(info.skip(info_string.len() as int)), code: Seq::empty() }),
                        index: st.index,
                    },
                )
            } else {
                (StepText::Keep, st)
            },
            _ => (StepText::Keep, st),
        },
    }
}

/// The rewrite of a list of events: the step taken for each, and the state after.
pub open spec fn scan(kinds: Seq<KindText>, info_string: Seq<char>, chapter_name: Seq<char>, chapter_dir: Seq<char>) -> (Seq<StepText>, ScanState)
    decreases kinds.len(),
{
    if kinds.len() == 0 {
        (Seq::empty(), ScanState { open: None, index: 0 })
    } else {
        let prev = scan(kinds.drop_last(), info_string, chapter_name, chapter_dir);
        let next = scan_step(prev.1, kinds.last(), info_string, chapter_name, chapter_dir);
        (prev.0.push(next.0), next.1)
    }
}

/// A diagram block being collected.
pub struct BlockBuilder {
    /// The directory of the chapter.
    pub path: String,
    /// The chapter's name, trimmed.
    pub chapter_name: String,
    /// The diagram's name, trimmed.
    pub graph_name: String,
    /// The code collected so far.
    pub code: String,
}

impl BlockBuilder {
    /// A builder without code.
    pub fn new(path: String, chapter_name: String, graph_name: String) -> (b: Self)
        ensures
            b.path == path,
            b.chapter_name == chapter_name,
            b.graph_name == graph_name,
            b.code@ == Seq::<char>::empty(),
    {
        BlockBuilder { path, chapter_name, graph_name, code: String::new() }
    }

    /// Adds text to the code.
    pub fn append_code(&mut self, code: &str)
        ensures
            final(self).code@ == old(self).code@ + code@,
            final(self).path == old(self).path,
            final(self).chapter_name == old(self).chapter_name,
            final(self).graph_name == old(self).graph_name,
    {
        self.code.append(code);
    }

    /// The diagram block, with the code trimmed.
    pub fn build(self, index: usize) -> (d: DiagramBlock)
        ensures
            d@ == (BlockText {
                graph_name: self.graph_name@,
                code: trim(self.code@),
                chapter_name: self.chapter_name@,
                chapter_path: self.path@,
                index: index as nat,
            }),
    {
        DiagramBlock {
            graph_name: self.graph_name,
            code: trim_str(self.code.as_str()),
            chapter_name: self.chapter_name,
            chapter_path: self.path,
            index,
        }
    }
}

/// The state that a builder stands for.
pub open spec fn builder_state(b: Option<BlockBuilder>, index: nat) -> ScanState {
    ScanState {
        open: match b {
            Some(x) => Some(OpenBlock { graph_name: x.graph_name@, code: x.code@ }),
            None => None,
        },
        index,
    }
}

fn is_prefix_chars(p: &Vec<char>, s: &Vec<char>) -> (r: bool)
    ensures
        r == p@.is_prefix_of(s@),
{
    if p.len() > s.len() {
        return false;
    }
    let mut k: usize = 0;
    while k < p.len()
        invariant
            k <= p.len() <= s.len(),
            forall|j: int| 0 <= j < k ==> p@[j] == s@[j],
        decreases p.len() - k,
    {
        if p[k] != s[k] {
            return false;
        }
        k += 1;
    }
    assert(s@.take(p.len() as int) =~= p@);
    true
}

/// Whether the info string `s` marks a diagram for the marker `p` (see
/// [`info_marks`]).
fn marks_chars(p: &Vec<char>, s: &Vec<char>) -> (r: bool)
    ensures
        r == info_marks(p@, s@),
{
    if !is_prefix_chars(p, s) {
        return false;
    }
    p.len() == s.len() || is_white_space_char(s[p.len()])
}

/// The graph name of an info string that starts with the marker: the rest,
/// trimmed.
fn graph_name_after(info: &Vec<char>, skip: usize) -> (r: String)
    requires
        skip <= info.len(),
    ensures
        r@ == trim(info@.skip(skip as int)),
{
    let mut rest: Vec<char> = Vec::new();
    let mut k = skip;
    while k < info.len()
        invariant
            skip <= k <= info.len(),
            rest@ == info@.subrange(skip as int, k as int),
        decreases info.len() - k,
    {
        rest.push(info[k]);
        k += 1;
    }
    assert(rest@ == info@.skip(skip as int));
    let t = trim_chars(&rest);
    string_of(&t)
}

/// The step taken for each event of a chapter (see [`scan`]).
pub fn plan_chapter(kinds: &Vec<EventKind>, info_string: &str, chapter_name: &str, chapter_dir: &str) -> (r: Vec<Step>)
    ensures
        step_texts(r@) == scan(kind_texts(kinds@), info_string@, chapter_name@, chapter_dir@).0,
{
    let ghost kt = kind_texts(kinds@);
    let marker = chars_of(info_string);
    let mut steps: Vec<Step> = Vec::new();
    let mut builder: Option<BlockBuilder> = None;
    let mut index: usize = 0;
    let mut i: usize = 0;
    while i < kinds.len()
        invariant
            i <= kinds.len(),
            index <= i,
            marker@ == info_string@,
            kt == kind_texts(kinds@),
            step_texts(steps@) == scan(kt.take(i as int), info_string@, chapter_name@, chapter_dir@).0,
            builder_state(builder, index as nat) == scan(kt.take(i as int), info_string@, chapter_name@, chapter_dir@).1,
            builder matches Some(b) ==> b.path@ == chapter_dir@ && b.chapter_name@ == trim(chapter_name@),
        decreases kinds.len() - i,
    {
        assert(kt.take(i + 1).drop_last() == kt.take(i as int));
        assert(kt.take(i + 1).last() == kinds@[i as int]@);
        let ghost before = step_texts(steps@);
        let current = builder;
        builder = None;
        match current {
            Some(mut b) => {
                match &kinds[i] {
                    EventKind::Text(t) => {
                        b.append_code(t.as_str());
                        builder = Some(b);
                        steps.push(Step::Drop);
                    },
                    EventKind::CodeBlockEnd => {
                        let block = b.build(index);
                        index += 1;
                        steps.push(Step::Diagram(block));
                    },
                    _ => {
                        builder = Some(b);
                        steps.push(Step::Drop);
                    },
                }
            },
            None => {
                match &kinds[i] {
                    EventKind::FencedCodeStart(info) => {
                        let info_chars = chars_of(info.as_str());
                        if marks_chars(&marker, &info_chars) {
                            let graph_name = graph_name_after(&info_chars, marker.len());
                            builder = Some(BlockBuilder::new(
                                String::from_str(chapter_dir),
                                trim_str(chapter_name),
                                graph_name,
                            ));
                            steps.push(Step::Drop);
                        } else {
                            steps.push(Step::Keep);
                        }
                    },
                    _ => {
                        steps.push(Step::Keep);
                    },
                }
            },
        }
        assert(step_texts(steps@) == before.push(steps@.last()@));
        i += 1;
    }
    assert(kt.take(kinds.len() as int) == kt);
    steps
}

/// The settings and the source directory of a book being rendered.
#[derive(Debug, Clone)]
pub struct Engine {
    /// The directory that chapter paths are relative to.
    pub src_dir: String,
    /// The settings.
    pub config: Config,
}

impl Engine {
    /// An engine for the book sources under `src_dir`.
    pub fn new(src_dir: String, config: Config) -> (e: Self)
        ensures
            e.src_dir == src_dir,
            e.config == config,
    {
        Engine { src_dir, config }
    }
}

} // verus!

verus! {

/// Markdown events of `pulldown_cmark`.
#[verifier::external_type_specification]
#[verifier::external_body]
pub struct ExMarkdownEvent<'a>(mdbook_markdown::pulldown_cmark::Event<'a>);

/// How a link or an image was written, in `pulldown_cmark`.
#[verifier::external_type_specification]
#[verifier::external_body]
pub struct ExLinkType(mdbook_markdown::pulldown_cmark::LinkType);

/// The error of `pulldown_cmark_to_cmark`.
#[verifier::external_type_specification]
#[verifier::external_body]
pub struct ExMarkdownWriteError(pulldown_cmark_to_cmark::Error);

/// The value of a `pulldown_cmark` event that owns its texts: its variant and
/// fields, each text as its characters, a heading level as its number and each
/// other `pulldown_cmark` enum as the variant of the same name in
/// [`crate::markdown`]. Two events with the same value differ at most in how
/// their texts are stored, which neither the parser's callers nor the writer
/// can tell apart.
pub uninterp spec fn event_model(event: Event<'static>) -> EventModel;

/// The events that `mdbook_markdown::new_cmark_parser` yields for `content`
/// with mdBook's default options.
pub uninterp spec fn markdown_events(content: Seq<char>) -> Seq<EventModel>;

/// What `pulldown_cmark_to_cmark::cmark` writes for `events` with its default
/// options: `None` where it returns an error.
pub uninterp spec fn markdown_text(events: Seq<EventModel>) -> Option<Seq<char>>;

/// A list of `pulldown_cmark` events seen as values.
pub open spec fn models(v: Seq<Event<'static>>) -> Seq<EventModel> {
    v.map_values(|e: Event<'static>| event_model(e))
}

/// Parses `content` with `mdbook_markdown::new_cmark_parser` and mdBook's
/// default options, each event made to own its text (`Event::into_static`,
/// which keeps variants and texts). The events are those that the parser
/// yields for the text; the options are fixed, so they depend on the text
/// alone.
#[verifier::external_body]
fn parse_markdown(content: &str) -> (r: Vec<Event<'static>>)
    ensures
        models(r@) == markdown_events(content@),
{
    mdbook_markdown::new_cmark_parser(content, &mdbook_markdown::MarkdownOptions::default())
        .map(Event::into_static)
        .collect()
}

/// Tells apart the variants of a `pulldown_cmark::Event` that the rewrite
/// reads (see [`kind_of`]): the start of a fenced code block with its info
/// string, text with its text, the end of a code block, and any other event.
#[verifier::external_body]
fn event_kind(event: &Event<'static>) -> (r: EventKind)
    ensures
        r@ == kind_of(event_model(*event)),
{
    match event {
        Event::Start(Tag::CodeBlock(CodeBlockKind::Fenced(info))) => EventKind::FencedCodeStart(info.to_string()),
        Event::Text(text) => EventKind::Text(text.to_string()),
        Event::End(TagEnd::CodeBlock) => EventKind::CodeBlockEnd,
        _ => EventKind::Other,
    }
}

/// The `pulldown_cmark::LinkType` of the same name as `kind`; a part of the
/// conversion of [`markdown_event`], whose contract covers it.
#[verifier::external_body]
fn pulldown_link_type(kind: LinkKind) -> LinkType {
    match kind {
        LinkKind::Inline => LinkType::Inline,
        LinkKind::Reference => LinkType::Reference,
        LinkKind::ReferenceUnknown => LinkType::ReferenceUnknown,
        LinkKind::Collapsed => LinkType::Collapsed,
        LinkKind::CollapsedUnknown => LinkType::CollapsedUnknown,
        LinkKind::Shortcut => LinkType::Shortcut,
        LinkKind::ShortcutUnknown => LinkType::ShortcutUnknown,
        LinkKind::Autolink => LinkType::Autolink,
        LinkKind::Email => LinkType::Email,
        LinkKind::WikiLink { has_pothole } => LinkType::WikiLink { has_pothole },
    }
}

/// The Markdown event that an [`OutputEvent`] stands for: the variant of the
/// same name, field for field.
pub open spec fn output_model(e: EventText) -> EventModel {
    match e {
        EventText::Html(s) => EventModel::Html(s),
        EventText::Text(s) => EventModel::Text(s),
        EventText::StartLink(k, u, t, i) => EventModel::Start(TagModel::Link { link_type: k, dest_url: u, title: t, id: i }),
        EventText::EndLink => EventModel::End(TagEndModel::Link),
        EventText::StartImage(k, u, t, i) => EventModel::Start(TagModel::Image { link_type: k, dest_url: u, title: t, id: i }),
        EventText::EndImage => EventModel::End(TagEndModel::Image),
    }
}

/// The Markdown events of a list of [`OutputEvent`]s.
pub open spec fn output_models(v: Seq<EventText>) -> Seq<EventModel> {
    v.map_values(|e: EventText| output_model(e))
}

/// Builds the `pulldown_cmark::Event` of an [`OutputEvent`], field for field:
/// HTML, text, and the start and end of links and images.
#[verifier::external_body]
fn markdown_event(event: OutputEvent) -> (r: Event<'static>)
    ensures
        event_model(r) == output_model(event@),
{
    match event {
        OutputEvent::Html(s) => Event::Html(s.into()),
        OutputEvent::Text(s) => Event::Text(s.into()),
        OutputEvent::StartLink { link_type, dest_url, title, id } => Event::Start(Tag::Link { link_type: pulldown_link_type(link_type), dest_url: dest_url.into(), title: title.into(), id: id.into() }),
        OutputEvent::EndLink => Event::End(TagEnd::Link),
        OutputEvent::StartImage { link_type, dest_url, title, id } => Event::Start(Tag::Image { link_type: pulldown_link_type(link_type), dest_url: dest_url.into(), title: title.into(), id: id.into() }),
        OutputEvent::EndImage => Event::End(TagEnd::Image),
    }
}

/// Writes `events` as Markdown with `pulldown_cmark_to_cmark::cmark` and its
/// default options, into an empty `String`; the result is the text written, or
/// the error that `cmark` returned.
#[verifier::external_body]
fn write_markdown(events: &Vec<Event<'static>>) -> (r: Result<String, pulldown_cmark_to_cmark::Error>)
    ensures
        match r {
            Ok(t) => markdown_text(models(events@)) == Some(t@),
            Err(_) => markdown_text(models(events@)) is None,
        },
{
    let mut buf = String::new();
    match pulldown_cmark_to_cmark::cmark(events.iter(), &mut buf) {
        Ok(_) => Ok(buf),
        Err(e) => Err(e),
    }
}

/// The diagram blocks among the steps, in order.
pub open spec fn diagrams_of(steps: Seq<StepText>) -> Seq<BlockText>
    decreases steps.len(),
{
    if steps.len() == 0 {
        Seq::empty()
    } else {
        let first: Seq<BlockText> = match steps[0] {
            StepText::Diagram(b) => seq![b],
            _ => Seq::empty(),
        };
        first + diagrams_of(steps.drop_first())
    }
}

/// The events of the rewritten chapter: kept events in place, dropped ones
/// gone, and each diagram's events where its block ended.
pub open spec fn merged<A>(events: Seq<A>, steps: Seq<StepText>, rendered: Seq<Seq<A>>) -> Seq<A>
    decreases steps.len(),
{
    if steps.len() == 0 || events.len() == 0 {
        Seq::empty()
    } else {
        match steps[0] {
            StepText::Keep => seq![events[0]] + merged(events.drop_first(), steps.drop_first(), rendered),
            StepText::Drop => merged(events.drop_first(), steps.drop_first(), rendered),
            StepText::Diagram(_) => if rendered.len() > 0 {
                rendered[0] + merged(events.drop_first(), steps.drop_first(), rendered.drop_first())
            } else {
                merged(events.drop_first(), steps.drop_first(), rendered)
            },
        }
    }
}

/// The number of diagram steps.
pub open spec fn diagram_count(steps: Seq<StepText>) -> nat {
    diagrams_of(steps).len()
}

/// Lists of events seen as sequences.
pub open spec fn event_lists(v: Seq<Vec<Event<'static>>>) -> Seq<Seq<Event<'static>>> {
    v.map_values(|e: Vec<Event<'static>>| e@)
}

/// Lists of `pulldown_cmark` events seen as values.
pub open spec fn model_lists(v: Seq<Seq<Event<'static>>>) -> Seq<Seq<EventModel>> {
    v.map_values(|e: Seq<Event<'static>>| models(e))
}

proof fn lemma_models_add(a: Seq<Event<'static>>, b: Seq<Event<'static>>)
    ensures
        models(a + b) == models(a) + models(b),
{
    assert(models(a + b) =~= models(a) + models(b));
}

/// Seeing the events as values commutes with putting the chapter together.
proof fn lemma_merged_models(events: Seq<Event<'static>>, steps: Seq<StepText>, rendered: Seq<Seq<Event<'static>>>)
    ensures
        models(merged(events, steps, rendered)) == merged(models(events), steps, model_lists(rendered)),
    decreases steps.len(),
{
    if steps.len() == 0 || events.len() == 0 {
        assert(models(Seq::<Event<'static>>::empty()) =~= Seq::<EventModel>::empty());
    } else {
        assert(models(events).drop_first() =~= models(events.drop_first()));
        assert(models(seq![events[0]]) =~= seq![models(events)[0]]);
        lemma_merged_models(events.drop_first(), steps.drop_first(), rendered);
        match steps[0] {
            StepText::Keep => {
                lemma_models_add(seq![events[0]], merged(events.drop_first(), steps.drop_first(), rendered));
            },
            StepText::Drop => {},
            StepText::Diagram(_) => {
                if rendered.len() > 0 {
                    assert(model_lists(rendered).drop_first() =~= model_lists(rendered.drop_first()));
                    lemma_merged_models(events.drop_first(), steps.drop_first(), rendered.drop_first());
                    lemma_models_add(rendered[0], merged(events.drop_first(), steps.drop_first(), rendered.drop_first()));
                }
            },
        }
    }
}

fn reversed<T>(v: Vec<T>) -> (r: Vec<T>)
    ensures
        r.len() == v.len(),
        forall|j: int| 0 <= j < v.len() ==> #[trigger] r@[j] == v@[v.len() - 1 - j],
{
    let ghost orig = v@;
    let mut v = v;
    let mut r: Vec<T> = Vec::new();
    while v.len() > 0
        invariant
            v.len() + r.len() == orig.len(),
            v@ == orig.take(v.len() as int),
            forall|j: int| 0 <= j < r.len() ==> #[trigger] r@[j] == orig[orig.len() - 1 - j],
        decreases v.len(),
    {
        let x = v.pop().unwrap();
        r.push(x);
    }
    r
}

/// Puts the chapter back together (see [`merged`]).
pub fn merge_events(events: Vec<Event<'static>>, steps: &Vec<Step>, rendered: Vec<Vec<Event<'static>>>) -> (r: Vec<Event<'static>>)
    requires
        events.len() == steps.len(),
        rendered.len() == diagram_count(step_texts(steps@)),
    ensures
        r@ == merged(events@, step_texts(steps@), event_lists(rendered@)),
{
    let ghost ev = events@;
    let ghost st = step_texts(steps@);
    let ghost rd = event_lists(rendered@);
    let n = events.len();
    let m = rendered.len();
    let mut rev_events = reversed(events);
    let mut rev_rendered = reversed(rendered);
    let mut out: Vec<Event<'static>> = Vec::new();
    let mut i: usize = 0;
    let mut d: usize = 0;
    assert(ev.skip(0) == ev);
    assert(st.skip(0) == st);
    assert(rd.skip(0) == rd);
    while i < n
        invariant
            n == ev.len() == st.len() == steps.len(),
            m == rd.len(),
            st == step_texts(steps@),
            i <= n,
            d <= m,
            rev_events.len() == n - i,
            forall|j: int| 0 <= j < n - i ==> #[trigger] rev_events@[j] == ev[n - 1 - j],
            rev_rendered.len() == m - d,
            forall|j: int| 0 <= j < m - d ==> #[trigger] rev_rendered@[j]@ == rd[m - 1 - j],
            diagram_count(st.skip(i as int)) == m - d,
            out@ + merged(ev.skip(i as int), st.skip(i as int), rd.skip(d as int)) == merged(ev, st, rd),
        decreases n - i,
    {
        let e = rev_events.pop().unwrap();
        assert(e == ev[i as int]);
        assert(ev.skip(i as int).drop_first() == ev.skip(i + 1));
        assert(st.skip(i as int).drop_first() == st.skip(i + 1));
        assert(st.skip(i as int)[0] == steps@[i as int]@);
        match &steps[i] {
            Step::Keep => {
                out.push(e);
            },
            Step::Drop => {},
            Step::Diagram(_) => {
                let mut r = rev_rendered.pop().unwrap();
                assert(r@ == rd[d as int]);
                assert(rd.skip(d as int).drop_first() == rd.skip(d + 1));
                out.append(&mut r);
                d += 1;
            },
        }
        i += 1;
    }
    out
}

} // verus!

verus! {

/// Why a chapter could not be written back.
#[derive(Debug, Clone)]
pub enum ChapterError {
    /// `pulldown_cmark_to_cmark` could not write the events as Markdown.
    MarkdownWrite,
    /// The outputs handed over are not one list per diagram, each with one
    /// output per run of `dot`.
    RunCount,
}

/// A chapter's Markdown events, what the rewrite reads of each, and the step
/// it takes for each.
pub struct ChapterPlan {
    events: Vec<Event<'static>>,
    kinds: Vec<EventKind>,
    steps: Vec<Step>,
    source: Ghost<Seq<char>>,
    info_string: Ghost<Seq<char>>,
    chapter_name: Ghost<Seq<char>>,
    chapter_dir: Ghost<Seq<char>>,
}

/// A list of blocks seen as texts.
pub open spec fn block_texts(v: Seq<DiagramBlock>) -> Seq<BlockText> {
    v.map_values(|b: DiagramBlock| b@)
}

/// The events that replace each diagram of a chapter: the theme style sheet
/// goes with the first diagram only.
pub open spec fn chapter_texts(blocks: Seq<BlockText>, config: Config, outputs: Seq<Seq<Seq<char>>>, k: int) -> Seq<EventText> {
    diagram_texts(blocks[k], config, k > 0 && config.themed_output && config.inject_theme_css, outputs[k])
}

/// The Markdown events that replace each diagram of a chapter (see
/// [`chapter_texts`]).
pub open spec fn diagram_models(blocks: Seq<BlockText>, config: Config, outputs: Seq<Seq<Seq<char>>>) -> Seq<Seq<EventModel>> {
    Seq::new(blocks.len(), |k: int| output_models(chapter_texts(blocks, config, outputs, k)))
}

/// Outputs of runs seen as texts.
pub open spec fn output_texts(v: Seq<Vec<String>>) -> Seq<Seq<Seq<char>>> {
    v.map_values(|o: Vec<String>| texts(o@))
}

/// Lists of library events seen as Markdown events.
pub open spec fn rendered_models(v: Seq<Vec<OutputEvent>>) -> Seq<Seq<EventModel>> {
    v.map_values(|e: Vec<OutputEvent>| output_models(event_texts(e@)))
}

/// The events of a chapter once rewritten: those read from `content`, each
/// block marked with `info_string` replaced by the events of its diagram for
/// the outputs of its runs of `dot`.
pub open spec fn rewritten(
    content: Seq<char>,
    info_string: Seq<char>,
    chapter_name: Seq<char>,
    chapter_dir: Seq<char>,
    config: Config,
    outputs: Seq<Seq<Seq<char>>>,
) -> Seq<EventModel> {
    let events = markdown_events(content);
    let steps = scan(kinds_of(events), info_string, chapter_name, chapter_dir).0;
    merged(events, steps, diagram_models(diagrams_of(steps), config, outputs))
}

/// The events that replace each diagram of a chapter, one theme style sheet
/// injector serving the whole chapter (see [`chapter_texts`]).
pub fn chapter_events(blocks: &Vec<DiagramBlock>, config: &Config, outputs: &Vec<Vec<String>>) -> (r: Vec<Vec<OutputEvent>>)
    requires
        outputs.len() == blocks.len(),
        forall|k: int| 0 <= k < outputs.len() ==> #[trigger] outputs@[k].len() == run_count(*config),
    ensures
        r.len() == blocks.len(),
        forall|k: int| 0 <= k < r.len() ==> event_texts(#[trigger] r@[k]@) == chapter_texts(block_texts(blocks@), *config, output_texts(outputs@), k),
{
    let mut theme_css = ThemeCssInjector::default();
    let mut r: Vec<Vec<OutputEvent>> = Vec::new();
    let mut k: usize = 0;
    while k < blocks.len()
        invariant
            k <= blocks.len(),
            outputs.len() == blocks.len(),
            forall|j: int| 0 <= j < outputs.len() ==> #[trigger] outputs@[j].len() == run_count(*config),
            r.len() == k,
            theme_css.emitted() == (k > 0 && config.themed_output && config.inject_theme_css),
            forall|j: int| 0 <= j < k ==> event_texts(#[trigger] r@[j]@) == chapter_texts(block_texts(blocks@), *config, output_texts(outputs@), j),
        decreases blocks.len() - k,
    {
        let events = diagram_events(&blocks[k], config, &mut theme_css, &outputs[k]);
        assert(output_texts(outputs@)[k as int] == texts(outputs@[k as int]@));
        assert(block_texts(blocks@)[k as int] == blocks@[k as int]@);
        r.push(events);
        k += 1;
    }
    r
}

impl ChapterPlan {
    /// The chapter's Markdown events.
    pub closed spec fn events(&self) -> Seq<EventModel> {
        models(self.events@)
    }

    /// What the rewrite read of each event.
    pub closed spec fn kinds(&self) -> Seq<KindText> {
        kind_texts(self.kinds@)
    }

    /// The step taken for each event.
    pub closed spec fn steps(&self) -> Seq<StepText> {
        step_texts(self.steps@)
    }

    /// The Markdown text that was parsed.
    pub closed spec fn source(&self) -> Seq<char> {
        self.source@
    }

    /// The info string that marks diagram blocks.
    pub closed spec fn info_string(&self) -> Seq<char> {
        self.info_string@
    }

    /// The chapter's name.
    pub closed spec fn chapter_name(&self) -> Seq<char> {
        self.chapter_name@
    }

    /// The chapter's directory.
    pub closed spec fn chapter_dir(&self) -> Seq<char> {
        self.chapter_dir@
    }

    /// The events are those of the source, each with its kind and its step.
    #[verifier::type_invariant]
    pub closed spec fn well_formed(&self) -> bool {
        &&& self.events.len() == self.kinds.len()
        &&& self.kinds.len() == self.steps.len()
        &&& self.events() == markdown_events(self.source())
        &&& self.kinds() == kinds_of(self.events())
        &&& self.steps() == scan(self.kinds(), self.info_string(), self.chapter_name(), self.chapter_dir()).0
    }

    /// Parses a chapter's Markdown and plans its rewrite: the events are those
    /// that the parser yields for `content`, the kinds are read from them, and
    /// the steps are those of [`scan`] over the kinds.
    pub fn scan(content: &str, info_string: &str, chapter_name: &str, chapter_dir: &str) -> (p: ChapterPlan)
        ensures
            p.well_formed(),
            p.source() == content@,
            p.info_string() == info_string@,
            p.chapter_name() == chapter_name@,
            p.chapter_dir() == chapter_dir@,
            p.events() == markdown_events(content@),
            p.kinds() == kinds_of(p.events()),
            p.steps() == scan(p.kinds(), info_string@, chapter_name@, chapter_dir@).0,
    {
        let events = parse_markdown(content);
        let mut kinds: Vec<EventKind> = Vec::new();
        let mut i: usize = 0;
        while i < events.len()
            invariant
                i <= events.len(),
                kinds.len() == i,
                forall|j: int| 0 <= j < i ==> #[trigger] kinds@[j]@ == kind_of(event_model(events@[j])),
            decreases events.len() - i,
        {
            kinds.push(event_kind(&events[i]));
            i += 1;
        }
        let steps = plan_chapter(&kinds, info_string, chapter_name, chapter_dir);
        proof {
            assert(kind_texts(kinds@) =~= kinds_of(models(events@)));
            assert(step_texts(steps@).len() == scan(kind_texts(kinds@), info_string@, chapter_name@, chapter_dir@).0.len());
            lemma_scan_len(kind_texts(kinds@), info_string@, chapter_name@, chapter_dir@);
        }
        ChapterPlan {
            events,
            kinds,
            steps,
            source: Ghost(content@),
            info_string: Ghost(info_string@),
            chapter_name: Ghost(chapter_name@),
            chapter_dir: Ghost(chapter_dir@),
        }
    }

    /// How many diagrams the chapter holds.
    pub fn count_diagrams(&self) -> (n: usize)
        ensures
            n == diagram_count(self.steps()),
    {
        proof {
            use_type_invariant(self);
        }
        let ghost st = self.steps();
        let mut n: usize = 0;
        let mut i: usize = 0;
        assert(st.skip(0) == st);
        while i < self.steps.len()
            invariant
                i <= self.steps.len(),
                n <= i,
                st == step_texts(self.steps@),
                n + diagram_count(st.skip(i as int)) == diagram_count(st),
            decreases self.steps.len() - i,
        {
            assert(st.skip(i as int).drop_first() == st.skip(i + 1));
            assert(st.skip(i as int)[0] == self.steps@[i as int]@);
            proof {
                lemma_diagrams_of_len(st.skip(i as int));
            }
            if let Step::Diagram(_) = &self.steps[i] {
                n += 1;
            }
            i += 1;
        }
        n
    }

    /// The chapter's diagram blocks, in order.
    pub fn blocks(&self) -> (r: Vec<DiagramBlock>)
        ensures
            block_texts(r@) == diagrams_of(self.steps()),
    {
        proof {
            use_type_invariant(self);
        }
        let ghost st = self.steps();
        let mut r: Vec<DiagramBlock> = Vec::new();
        let mut i: usize = 0;
        assert(st.skip(0) == st);
        while i < self.steps.len()
            invariant
                i <= self.steps.len(),
                st == step_texts(self.steps@),
                block_texts(r@) + diagrams_of(st.skip(i as int)) == diagrams_of(st),
            decreases self.steps.len() - i,
        {
            assert(st.skip(i as int).drop_first() == st.skip(i + 1));
            assert(st.skip(i as int)[0] == self.steps@[i as int]@);
            let ghost before = block_texts(r@);
            if let Step::Diagram(b) = &self.steps[i] {
                r.push(b.duplicate());
                assert(block_texts(r@) == before.push(b@));
            }
            i += 1;
        }
        r
    }

    /// Writes the chapter back as Markdown, each diagram's block replaced by
    /// its events (see [`merged`]).
    pub fn write(self, rendered: Vec<Vec<OutputEvent>>) -> (r: Result<String, ChapterError>)
        requires
            rendered.len() == diagram_count(self.steps()),
        ensures
            match r {
                Ok(t) => markdown_text(merged(self.events(), self.steps(), rendered_models(rendered@))) == Some(t@),
                Err(e) => e is MarkdownWrite && markdown_text(merged(self.events(), self.steps(), rendered_models(rendered@))) is None,
            },
    {
        proof {
            use_type_invariant(&self);
        }
        let ghost orig = rendered@;
        let n = rendered.len();
        let mut converted: Vec<Vec<Event<'static>>> = Vec::new();
        let mut rev = reversed(rendered);
        while rev.len() > 0
            invariant
                n == orig.len(),
                converted.len() + rev.len() == n,
                forall|j: int| 0 <= j < rev.len() ==> #[trigger] rev@[j] == orig[n - 1 - j],
                forall|j: int| 0 <= j < converted.len() ==> #[trigger] models(converted@[j]@) == output_models(event_texts(orig[j]@)),
            decreases rev.len(),
        {
            let events = rev.pop().unwrap();
            converted.push(to_markdown_events(events));
        }
        assert(model_lists(event_lists(converted@)) =~= rendered_models(orig));
        let ghost ev = self.events@;
        let ghost st = self.steps();
        let merged_events = merge_events(self.events, &self.steps, converted);
        proof {
            lemma_merged_models(ev, st, event_lists(converted@));
        }
        match write_markdown(&merged_events) {
            Ok(text) => Ok(text),
            Err(_) => Err(ChapterError::MarkdownWrite),
        }
    }
}

/// The Markdown events for library events, in order.
fn to_markdown_events(events: Vec<OutputEvent>) -> (r: Vec<Event<'static>>)
    ensures
        models(r@) == output_models(event_texts(events@)),
{
    let ghost orig = events@;
    let n = events.len();
    let mut out: Vec<Event<'static>> = Vec::new();
    let mut evs = reversed(events);
    while evs.len() > 0
        invariant
            n == orig.len(),
            out.len() + evs.len() == n,
            forall|j: int| 0 <= j < evs.len() ==> #[trigger] evs@[j] == orig[n - 1 - j],
            forall|j: int| 0 <= j < out.len() ==> #[trigger] event_model(out@[j]) == output_model(orig[j]@),
        decreases evs.len(),
    {
        out.push(markdown_event(evs.pop().unwrap()));
    }
    assert(models(out@) =~= output_models(event_texts(orig)));
    out
}

/// Writes library events as Markdown.
pub fn events_to_markdown(events: Vec<OutputEvent>) -> (r: Result<String, ChapterError>)
    ensures
        match r {
            Ok(t) => markdown_text(output_models(event_texts(events@))) == Some(t@),
            Err(e) => e is MarkdownWrite && markdown_text(output_models(event_texts(events@))) is None,
        },
{
    let out = to_markdown_events(events);
    match write_markdown(&out) {
        Ok(text) => Ok(text),
        Err(_) => Err(ChapterError::MarkdownWrite),
    }
}

proof fn lemma_scan_len(kinds: Seq<KindText>, info_string: Seq<char>, chapter_name: Seq<char>, chapter_dir: Seq<char>)
    ensures
        scan(kinds, info_string, chapter_name, chapter_dir).0.len() == kinds.len(),
    decreases kinds.len(),
{
    if kinds.len() > 0 {
        lemma_scan_len(kinds.drop_last(), info_string, chapter_name, chapter_dir);
    }
}

/// The events of a planned chapter once rewritten (see [`rewritten`]).
pub open spec fn planned_rewrite(plan: ChapterPlan, config: Config, outputs: Seq<Seq<Seq<char>>>) -> Seq<EventModel> {
    rewritten(plan.source(), plan.info_string(), plan.chapter_name(), plan.chapter_dir(), config, outputs)
}

/// Rewrites a planned chapter and writes it back as Markdown: the events of
/// each diagram are those of [`chapter_events`] for the blocks of the plan and
/// `outputs`, what their runs of `dot` printed. The text is what
/// `pulldown_cmark_to_cmark` writes for the events of [`rewritten`], and the
/// rewrite fails exactly where it fails to write them.
pub fn render_chapter(plan: ChapterPlan, config: &Config, outputs: &Vec<Vec<String>>) -> (r: Result<String, ChapterError>)
    requires
        outputs.len() == diagram_count(plan.steps()),
        forall|k: int| 0 <= k < outputs.len() ==> #[trigger] outputs@[k].len() == run_count(*config),
    ensures
        match r {
            Ok(t) => markdown_text(planned_rewrite(plan, *config, output_texts(outputs@))) == Some(t@),
            Err(e) => e is MarkdownWrite && markdown_text(planned_rewrite(plan, *config, output_texts(outputs@))) is None,
        },
{
    proof {
        use_type_invariant(&plan);
    }
    let blocks = plan.blocks();
    let rendered = chapter_events(&blocks, config, outputs);
    assert(rendered_models(rendered@) =~= diagram_models(diagrams_of(plan.steps()), *config, output_texts(outputs@)));
    plan.write(rendered)
}

/// Whether `outputs` holds one list per diagram of the plan, each with one
/// output per run of `dot`.
pub open spec fn outputs_fit(plan: ChapterPlan, config: Config, outputs: Seq<Vec<String>>) -> bool {
    &&& outputs.len() == diagram_count(plan.steps())
    &&& forall|k: int| 0 <= k < outputs.len() ==> #[trigger] outputs[k].len() == run_count(config)
}

/// Rewrites a planned chapter as [`render_chapter`] does, after checking that
/// `outputs` holds one list per diagram, each with one output per run of
/// `dot`; where it does not, the chapter is not written.
pub fn render_chapter_checked(plan: ChapterPlan, config: &Config, outputs: &Vec<Vec<String>>) -> (r: Result<String, ChapterError>)
    ensures
        match r {
            Ok(t) => outputs_fit(plan, *config, outputs@)
                && markdown_text(planned_rewrite(plan, *config, output_texts(outputs@))) == Some(t@),
            Err(ChapterError::MarkdownWrite) => outputs_fit(plan, *config, outputs@)
                && markdown_text(planned_rewrite(plan, *config, output_texts(outputs@))) is None,
            Err(ChapterError::RunCount) => !outputs_fit(plan, *config, outputs@),
        },
{
    if outputs.len() != plan.count_diagrams() {
        return Err(ChapterError::RunCount);
    }
    let runs = runs_per_diagram(config);
    let mut k: usize = 0;
    while k < outputs.len()
        invariant
            k <= outputs.len(),
            runs == run_count(*config),
            forall|j: int| 0 <= j < k ==> #[trigger] outputs@[j].len() == run_count(*config),
        decreases outputs.len() - k,
    {
        if outputs[k].len() != runs {
            return Err(ChapterError::RunCount);
        }
        k += 1;
    }
    render_chapter(plan, config, outputs)
}

} // verus!

verus! {

proof fn lemma_diagrams_of_push(a: Seq<StepText>, x: StepText)
    ensures
        diagrams_of(a.push(x)) == diagrams_of(a) + diagrams_of(seq![x]),
    decreases a.len(),
{
    if a.len() == 0 {
        assert(a.push(x) == seq![x]);
        assert(diagrams_of(a) == Seq::<BlockText>::empty());
        assert(Seq::<BlockText>::empty() + diagrams_of(seq![x]) == diagrams_of(seq![x]));
    } else {
        assert(a.push(x).drop_first() == a.drop_first().push(x));
        assert(a.push(x)[0] == a[0]);
        lemma_diagrams_of_push(a.drop_first(), x);
        assert(seq![x].drop_first().len() == 0);
        assert(diagrams_of(seq![x].drop_first()) == Seq::<BlockText>::empty());
    }
}

/// The diagrams of a chapter are numbered from 0 in the order they appear, and
/// the count after the last one is their number.
pub proof fn law_diagrams_numbered_in_order(kinds: Seq<KindText>, info_string: Seq<char>, chapter_name: Seq<char>, chapter_dir: Seq<char>)
    ensures
        forall|k: int| 0 <= k < diagrams_of(scan(kinds, info_string, chapter_name, chapter_dir).0).len()
            ==> (#[trigger] diagrams_of(scan(kinds, info_string, chapter_name, chapter_dir).0)[k]).index == k,
        scan(kinds, info_string, chapter_name, chapter_dir).1.index == diagrams_of(scan(kinds, info_string, chapter_name, chapter_dir).0).len(),
    decreases kinds.len(),
{
    if kinds.len() > 0 {
        let prev = scan(kinds.drop_last(), info_string, chapter_name, chapter_dir);
        law_diagrams_numbered_in_order(kinds.drop_last(), info_string, chapter_name, chapter_dir);
        let next = scan_step(prev.1, kinds.last(), info_string, chapter_name, chapter_dir);
        lemma_diagrams_of_push(prev.0, next.0);
        let one = diagrams_of(seq![next.0]);
        assert(seq![next.0].drop_first().len() == 0);
        assert(diagrams_of(seq![next.0].drop_first()) == Seq::<BlockText>::empty());
        match next.0 {
            StepText::Diagram(b) => {
                assert(one == seq![b]);
                assert(b.index == prev.1.index);
            },
            _ => {
                assert(one.len() == 0);
                assert(next.1.index == prev.1.index);
            },
        }
    }
}

/// Whether an event opens a diagram block.
pub open spec fn marks_diagram(kind: KindText, info_string: Seq<char>) -> bool {
    match kind {
        KindText::FencedCodeStart(info) => info_marks(info_string, info),
        _ => false,
    }
}

proof fn lemma_unmarked_scan(kinds: Seq<KindText>, info_string: Seq<char>, chapter_name: Seq<char>, chapter_dir: Seq<char>)
    requires
        forall|k: int| 0 <= k < kinds.len() ==> !marks_diagram(#[trigger] kinds[k], info_string),
    ensures
        scan(kinds, info_string, chapter_name, chapter_dir).1.open is None,
        scan(kinds, info_string, chapter_name, chapter_dir).1.index == 0,
        scan(kinds, info_string, chapter_name, chapter_dir).0.len() == kinds.len(),
        forall|k: int| 0 <= k < kinds.len() ==> #[trigger] scan(kinds, info_string, chapter_name, chapter_dir).0[k] == StepText::Keep,
    decreases kinds.len(),
{
    if kinds.len() > 0 {
        assert forall|k: int| 0 <= k < kinds.drop_last().len() implies !marks_diagram(#[trigger] kinds.drop_last()[k], info_string) by {
            assert(kinds.drop_last()[k] == kinds[k]);
        }
        lemma_unmarked_scan(kinds.drop_last(), info_string, chapter_name, chapter_dir);
        assert(!marks_diagram(kinds[kinds.len() - 1], info_string));
    }
}

proof fn lemma_merged_all_kept<A>(events: Seq<A>, steps: Seq<StepText>, rendered: Seq<Seq<A>>)
    requires
        events.len() == steps.len(),
        forall|k: int| 0 <= k < steps.len() ==> #[trigger] steps[k] == StepText::Keep,
    ensures
        merged(events, steps, rendered) == events,
    decreases steps.len(),
{
    if steps.len() > 0 {
        assert forall|k: int| 0 <= k < steps.drop_first().len() implies #[trigger] steps.drop_first()[k] == StepText::Keep by {
            assert(steps.drop_first()[k] == steps[k + 1]);
        }
        lemma_merged_all_kept(events.drop_first(), steps.drop_first(), rendered);
        assert(steps[0] == StepText::Keep);
        assert(events == seq![events[0]] + events.drop_first());
    } else {
        assert(events.len() == 0);
    }
}

/// A chapter whose text has no fenced code block marked with the info string
/// has no diagram, and its rewrite is the very events its text was read into.
pub proof fn law_unmarked_chapter_is_unchanged(
    content: Seq<char>,
    info_string: Seq<char>,
    chapter_name: Seq<char>,
    chapter_dir: Seq<char>,
    config: Config,
    outputs: Seq<Seq<Seq<char>>>,
)
    requires
        forall|k: int| 0 <= k < markdown_events(content).len()
            ==> !marks_diagram(#[trigger] kind_of(markdown_events(content)[k]), info_string),
    ensures
        diagram_count(scan(kinds_of(markdown_events(content)), info_string, chapter_name, chapter_dir).0) == 0,
        rewritten(content, info_string, chapter_name, chapter_dir, config, outputs) == markdown_events(content),
{
    let events = markdown_events(content);
    let kinds = kinds_of(events);
    assert forall|k: int| 0 <= k < kinds.len() implies !marks_diagram(#[trigger] kinds[k], info_string) by {
        assert(kinds[k] == kind_of(events[k]));
    }
    lemma_unmarked_scan(kinds, info_string, chapter_name, chapter_dir);
    let steps = scan(kinds, info_string, chapter_name, chapter_dir).0;
    lemma_merged_all_kept(events, steps, diagram_models(diagrams_of(steps), config, outputs));
    law_diagrams_numbered_in_order(kinds, info_string, chapter_name, chapter_dir);
}

} // verus!

verus! {

proof fn lemma_not_style_html(h: Seq<char>)
    requires
        h.len() > 1,
        h[1] != 's',
    ensures
        h != style_tag(),
        EventText::Html(h) != EventText::Html(style_tag()),
{
    reveal_strlit("<style id=\"");
    assert(style_tag()[1] == "<style id=\""@[1]);
}

/// The theme style sheet goes with the first diagram of a chapter, and with it
/// only, where output is themed and the settings inject it.
pub proof fn law_style_sheet_goes_with_first_diagram(
    blocks: Seq<BlockText>,
    config: Config,
    outputs: Seq<Seq<Seq<char>>>,
    k: int,
)
    requires
        0 <= k < blocks.len(),
        outputs.len() == blocks.len(),
        forall|j: int| 0 <= j < outputs.len() ==> #[trigger] outputs[j].len() == run_count(config),
    ensures
        chapter_texts(blocks, config, outputs, k).contains(EventText::Html(style_tag()))
            <==> (k == 0 && config.themed_output && config.inject_theme_css),
{
    reveal_strlit("<!-- mdbook-modern-dot -->");
    reveal_strlit("<div class=\"");
    reveal_strlit("<p class=\"");
    let t = chapter_texts(blocks, config, outputs, k);
    let style = EventText::Html(style_tag());
    let b = blocks[k];
    let o = outputs[k];
    let sep = BLOCK_SEPARATOR@ + "\n\n"@;
    assert(sep[1] == '!');
    lemma_not_style_html(sep);
    let light_file = light_name(b.chapter_name, b.graph_name, b.index);
    let dark_file = dark_name(b.chapter_name, b.graph_name, b.index, config.dark_suffix@);
    let wrapper = config.theme_wrapper_class@;
    let file_html = themed_file_html(wrapper, light_file, dark_file, b.graph_name);
    assert(file_html[1] == 'p');
    lemma_not_style_html(file_html);
    if config.output_to_file && config.themed_output {
    } else if !config.output_to_file && config.themed_output {
        let h = themed_inline_html(o[0], o[1], wrapper);
        assert(h[1] == 'd');
        lemma_not_style_html(h);
    } else if !config.output_to_file {
        let h = inline_html(o[0]);
        assert(h[1] == 'd');
        lemma_not_style_html(h);
    }
    if k == 0 && config.themed_output && config.inject_theme_css {
        assert(t[1] == style);
    }
    if t.contains(style) {
        let i = choose|i: int| 0 <= i < t.len() && t[i] == style;
        assert(t[i] == style);
    }
}


/// How many times the theme style sheet stands among `events`.
pub open spec fn style_sheets(events: Seq<EventModel>) -> nat
    decreases events.len(),
{
    if events.len() == 0 {
        0
    } else {
        (if events[0] == EventModel::Html(style_tag()) { 1nat } else { 0nat }) + style_sheets(events.drop_first())
    }
}

/// How many times the theme style sheet stands among the lists of events.
pub open spec fn list_style_sheets(lists: Seq<Seq<EventModel>>) -> nat
    decreases lists.len(),
{
    if lists.len() == 0 {
        0
    } else {
        style_sheets(lists[0]) + list_style_sheets(lists.drop_first())
    }
}

proof fn lemma_style_sheets_add(a: Seq<EventModel>, b: Seq<EventModel>)
    ensures
        style_sheets(a + b) == style_sheets(a) + style_sheets(b),
    decreases a.len(),
{
    if a.len() == 0 {
        assert(a + b =~= b);
    } else {
        assert((a + b).drop_first() =~= a.drop_first() + b);
        assert((a + b)[0] == a[0]);
        lemma_style_sheets_add(a.drop_first(), b);
    }
}

proof fn lemma_diagrams_of_len(steps: Seq<StepText>)
    ensures
        steps.len() > 0 ==> diagram_count(steps) == diagram_count(steps.drop_first()) + (if steps[0] is Diagram { 1int } else { 0int }),
{
}

proof fn lemma_merged_style_sheets(events: Seq<EventModel>, steps: Seq<StepText>, rendered: Seq<Seq<EventModel>>)
    requires
        events.len() == steps.len(),
        rendered.len() == diagram_count(steps),
    ensures
        style_sheets(merged(events, steps, rendered))
            == style_sheets(merged(events, steps, Seq::<Seq<EventModel>>::empty())) + list_style_sheets(rendered),
    decreases steps.len(),
{
    let none = Seq::<Seq<EventModel>>::empty();
    if steps.len() > 0 {
        lemma_diagrams_of_len(steps);
        let rest_events = events.drop_first();
        let rest_steps = steps.drop_first();
        match steps[0] {
            StepText::Keep => {
                lemma_merged_style_sheets(rest_events, rest_steps, rendered);
                lemma_style_sheets_add(seq![events[0]], merged(rest_events, rest_steps, rendered));
                lemma_style_sheets_add(seq![events[0]], merged(rest_events, rest_steps, none));
            },
            StepText::Drop => {
                lemma_merged_style_sheets(rest_events, rest_steps, rendered);
            },
            StepText::Diagram(_) => {
                lemma_merged_style_sheets(rest_events, rest_steps, rendered.drop_first());
                lemma_style_sheets_add(rendered[0], merged(rest_events, rest_steps, rendered.drop_first()));
            },
        }
    } else {
        assert(rendered.len() == 0);
    }
}

proof fn lemma_no_style_sheet(t: Seq<EventText>)
    requires
        forall|i: int| 0 <= i < t.len() ==> #[trigger] t[i] != EventText::Html(style_tag()),
    ensures
        style_sheets(output_models(t)) == 0,
    decreases t.len(),
{
    if t.len() > 0 {
        assert(output_models(t).drop_first() =~= output_models(t.drop_first()));
        assert(t[0] != EventText::Html(style_tag()));
        assert forall|i: int| 0 <= i < t.drop_first().len() implies #[trigger] t.drop_first()[i] != EventText::Html(style_tag()) by {
            assert(t.drop_first()[i] == t[i + 1]);
        }
        lemma_no_style_sheet(t.drop_first());
    }
}

proof fn lemma_one_style_sheet(a: EventText, h: Seq<char>)
    requires
        a != EventText::Html(style_tag()),
        h != style_tag(),
    ensures
        style_sheets(output_models(seq![a, EventText::Html(style_tag()), EventText::Html(h), EventText::Text("\n\n"@)])) == 1,
{
    let t = seq![a, EventText::Html(style_tag()), EventText::Html(h), EventText::Text("\n\n"@)];
    let rest = seq![EventText::Html(h), EventText::Text("\n\n"@)];
    assert(output_models(t) =~= output_models(seq![a]) + output_models(seq![EventText::Html(style_tag())]) + output_models(rest));
    lemma_style_sheets_add(output_models(seq![a]) + output_models(seq![EventText::Html(style_tag())]), output_models(rest));
    lemma_style_sheets_add(output_models(seq![a]), output_models(seq![EventText::Html(style_tag())]));
    assert(seq![a][0] == a);
    lemma_no_style_sheet(seq![a]);
    assert(rest[0] == EventText::Html(h));
    assert(rest[1] == EventText::Text("\n\n"@));
    lemma_no_style_sheet(rest);
    let one = output_models(seq![EventText::Html(style_tag())]);
    assert(one.drop_first().len() == 0);
    assert(style_sheets(one.drop_first()) == 0);
    assert(one[0] == EventModel::Html(style_tag()));
    assert(style_sheets(one) == 1);
}

/// How many theme style sheets each diagram of a chapter brings: one with the
/// first where output is themed and the settings inject it, none otherwise.
proof fn lemma_diagram_style_sheets(blocks: Seq<BlockText>, config: Config, outputs: Seq<Seq<Seq<char>>>, k: int)
    requires
        0 <= k < blocks.len(),
        outputs.len() == blocks.len(),
        forall|j: int| 0 <= j < outputs.len() ==> #[trigger] outputs[j].len() == run_count(config),
    ensures
        style_sheets(output_models(chapter_texts(blocks, config, outputs, k)))
            == (if k == 0 && config.themed_output && config.inject_theme_css { 1nat } else { 0nat }),
{
    let t = chapter_texts(blocks, config, outputs, k);
    law_style_sheet_goes_with_first_diagram(blocks, config, outputs, k);
    if k == 0 && config.themed_output && config.inject_theme_css {
        reveal_strlit("<!-- mdbook-modern-dot -->");
        reveal_strlit("<div class=\"");
        reveal_strlit("<p class=\"");
        let b = blocks[k];
        let o = outputs[k];
        let sep = BLOCK_SEPARATOR@ + "\n\n"@;
        assert(sep[1] == '!');
        lemma_not_style_html(sep);
        let wrapper = config.theme_wrapper_class@;
        let h = if config.output_to_file {
            themed_file_html(
                wrapper,
                light_name(b.chapter_name, b.graph_name, b.index),
                dark_name(b.chapter_name, b.graph_name, b.index, config.dark_suffix@),
                b.graph_name,
            )
        } else {
            themed_inline_html(o[0], o[1], wrapper)
        };
        assert(h[1] == 'p' || h[1] == 'd');
        lemma_not_style_html(h);
        assert(t =~= seq![EventText::Html(sep), EventText::Html(style_tag()), EventText::Html(h), EventText::Text("\n\n"@)]);
        lemma_one_style_sheet(EventText::Html(sep), h);
    } else {
        assert forall|i: int| 0 <= i < t.len() implies #[trigger] t[i] != EventText::Html(style_tag()) by {
            if t[i] == EventText::Html(style_tag()) {
                assert(t.contains(EventText::Html(style_tag())));
            }
        }
        lemma_no_style_sheet(t);
    }
}

proof fn lemma_list_style_sheets_after_first(lists: Seq<Seq<EventModel>>)
    requires
        forall|k: int| 0 < k < lists.len() ==> style_sheets(#[trigger] lists[k]) == 0,
    ensures
        list_style_sheets(lists) == (if lists.len() > 0 { style_sheets(lists[0]) } else { 0 }),
    decreases lists.len(),
{
    if lists.len() > 1 {
        let rest = lists.drop_first();
        assert forall|k: int| 0 < k < rest.len() implies style_sheets(#[trigger] rest[k]) == 0 by {
            assert(rest[k] == lists[k + 1]);
        }
        lemma_list_style_sheets_after_first(rest);
        assert(rest[0] == lists[1]);
        assert(style_sheets(lists[1]) == 0);
    } else if lists.len() == 1 {
        assert(lists.drop_first().len() == 0);
        assert(list_style_sheets(lists.drop_first()) == 0);
    }
}

/// A chapter's rewrite holds the theme style sheet once more than the events
/// it keeps of its text where it has a diagram, output is themed and the
/// settings inject the style sheet, and as many times as those events
/// otherwise: one style sheet per chapter, whatever the number of diagrams.
pub proof fn law_one_style_sheet_per_chapter(
    content: Seq<char>,
    info_string: Seq<char>,
    chapter_name: Seq<char>,
    chapter_dir: Seq<char>,
    config: Config,
    outputs: Seq<Seq<Seq<char>>>,
)
    requires
        outputs.len() == diagram_count(scan(kinds_of(markdown_events(content)), info_string, chapter_name, chapter_dir).0),
        forall|j: int| 0 <= j < outputs.len() ==> #[trigger] outputs[j].len() == run_count(config),
    ensures
        style_sheets(rewritten(content, info_string, chapter_name, chapter_dir, config, outputs))
            == style_sheets(
                merged(
                    markdown_events(content),
                    scan(kinds_of(markdown_events(content)), info_string, chapter_name, chapter_dir).0,
                    Seq::<Seq<EventModel>>::empty(),
                ),
            ) + (if outputs.len() > 0 && config.themed_output && config.inject_theme_css { 1nat } else { 0nat }),
{
    let events = markdown_events(content);
    let kinds = kinds_of(events);
    let steps = scan(kinds, info_string, chapter_name, chapter_dir).0;
    lemma_scan_len(kinds, info_string, chapter_name, chapter_dir);
    let blocks = diagrams_of(steps);
    let lists = diagram_models(blocks, config, outputs);
    assert forall|k: int| 0 <= k < lists.len() implies #[trigger] style_sheets(lists[k])
        == (if k == 0 && config.themed_output && config.inject_theme_css { 1nat } else { 0nat }) by {
        lemma_diagram_style_sheets(blocks, config, outputs, k);
    }
    lemma_list_style_sheets_after_first(lists);
    lemma_merged_style_sheets(events, steps, lists);
}

} // verus!

verus! {

/// Texts joined in order.
pub open spec fn concat_texts(ts: Seq<Seq<char>>) -> Seq<char>
    decreases ts.len(),
{
    if ts.len() == 0 {
        Seq::empty()
    } else {
        concat_texts(ts.drop_last()) + ts.last()
    }
}

/// Text events holding the given texts.
pub open spec fn text_kinds(ts: Seq<Seq<char>>) -> Seq<KindText> {
    ts.map_values(|t: Seq<char>| KindText::Text(t))
}

proof fn lemma_scan_push(kinds: Seq<KindText>, k: KindText, info_string: Seq<char>, chapter_name: Seq<char>, chapter_dir: Seq<char>)
    ensures
        scan(kinds.push(k), info_string, chapter_name, chapter_dir) == ({
            let prev = scan(kinds, info_string, chapter_name, chapter_dir);
            let next = scan_step(prev.1, k, info_string, chapter_name, chapter_dir);
            (prev.0.push(next.0), next.1)
        }),
{
    assert(kinds.push(k).drop_last() =~= kinds);
}

proof fn lemma_block_collects_texts(start: Seq<KindText>, ts: Seq<Seq<char>>, graph_name: Seq<char>, index: nat, info_string: Seq<char>, chapter_name: Seq<char>, chapter_dir: Seq<char>)
    requires
        scan(start, info_string, chapter_name, chapter_dir).1 == (ScanState {
            open: Some(OpenBlock { graph_name, code: Seq::empty() }),
            index,
        }),
    ensures
        scan(start + text_kinds(ts), info_string, chapter_name, chapter_dir).1 == (ScanState {
            open: Some(OpenBlock { graph_name, code: concat_texts(ts) }),
            index,
        }),
    decreases ts.len(),
{
    if ts.len() == 0 {
        assert(start + text_kinds(ts) =~= start);
    } else {
        lemma_block_collects_texts(start, ts.drop_last(), graph_name, index, info_string, chapter_name, chapter_dir);
        assert(start + text_kinds(ts) =~= (start + text_kinds(ts.drop_last())).push(KindText::Text(ts.last())));
        lemma_scan_push(start + text_kinds(ts.drop_last()), KindText::Text(ts.last()), info_string, chapter_name, chapter_dir);
    }
}

/// The code of a diagram is all the text of its block, in order and trimmed,
/// however many text events the parser split it into (as it does inside list
/// items and block quotes): after events that leave no block open, a fence
/// whose info string marks a diagram, text events and the end of the code
/// block give a diagram named by the rest of the info string, whose code is
/// the texts joined and trimmed, and whose index counts the diagrams before it.
pub proof fn law_diagram_code_is_all_its_text(
    before: Seq<KindText>,
    info: Seq<char>,
    ts: Seq<Seq<char>>,
    info_string: Seq<char>,
    chapter_name: Seq<char>,
    chapter_dir: Seq<char>,
)
    requires
        scan(before, info_string, chapter_name, chapter_dir).1.open is None,
        info_marks(info_string, info),
    ensures
        ({
            let kinds = before.push(KindText::FencedCodeStart(info)) + text_kinds(ts) + seq![KindText::CodeBlockEnd];
            let r = scan(kinds, info_string, chapter_name, chapter_dir);
            &&& r.0.last() == StepText::Diagram(BlockText {
                graph_name: trim(info.skip(info_string.len() as int)),
                code: trim(concat_texts(ts)),
                chapter_name: trim(chapter_name),
                chapter_path: chapter_dir,
                index: scan(before, info_string, chapter_name, chapter_dir).1.index,
            })
            &&& r.1 == (ScanState { open: None, index: scan(before, info_string, chapter_name, chapter_dir).1.index + 1 })
        }),
{
    let start = before.push(KindText::FencedCodeStart(info));
    let index = scan(before, info_string, chapter_name, chapter_dir).1.index;
    let graph_name = trim(info.skip(info_string.len() as int));
    lemma_scan_push(before, KindText::FencedCodeStart(info), info_string, chapter_name, chapter_dir);
    lemma_block_collects_texts(start, ts, graph_name, index, info_string, chapter_name, chapter_dir);
    let body = start + text_kinds(ts);
    assert(body + seq![KindText::CodeBlockEnd] =~= body.push(KindText::CodeBlockEnd));
    lemma_scan_push(body, KindText::CodeBlockEnd, info_string, chapter_name, chapter_dir);
}

} // verus!
