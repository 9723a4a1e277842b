//! What a diagram block turns into: the `dot` runs it needs, and the Markdown
//! events that replace it once those runs are done.

use vstd::prelude::*;
use crate::block::{dark_name, join_path, light_name, BlockText, DiagramBlock};
use crate::config::Config;
use crate::markdown::LinkKind;
use crate::html::{
    escaped, inline_diagram, inline_html, sanitized, themed_file_diagram, themed_file_html,
    themed_inline_diagram, themed_inline_html, BLOCK_SEPARATOR,
};
use crate::theme::{prepare_dot, prepared, texts, theme_outcome, ThemeError};
use crate::theme_css::{style_tag, ThemeCssInjector};

verus! {

/// A Markdown event produced for a rendered diagram.
#[derive(Debug, Clone, PartialEq, Eq)]
pub enum OutputEvent {
    /// Raw HTML.
    Html(String),
    /// Text.
    Text(String),
    /// The start of a link to `dest_url` with the given title and reference id.
    StartLink { link_type: LinkKind, dest_url: String, title: String, id: String },
    /// The end of a link.
    EndLink,
    /// The start of an image of `dest_url` with the given title and reference id.
    StartImage { link_type: LinkKind, dest_url: String, title: String, id: String },
    /// The end of an image.
    EndImage,
}

/// An [`OutputEvent`] seen as texts.
pub enum EventText {
    Html(Seq<char>),
    Text(Seq<char>),
    /// How it was written, its destination, title and reference id.
    StartLink(LinkKind, Seq<char>, Seq<char>, Seq<char>),
    EndLink,
    /// How it was written, its destination, title and reference id.
    StartImage(LinkKind, Seq<char>, Seq<char>, Seq<char>),
    EndImage,
}

impl View for OutputEvent {
    type V = EventText;

    open spec fn view(&self) -> EventText {
        match self {
            OutputEvent::Html(s) => EventText::Html(s@),
            OutputEvent::Text(s) => EventText::Text(s@),
            OutputEvent::StartLink { link_type, dest_url, title, id } => EventText::StartLink(*link_type, dest_url@, title@, id@),
            OutputEvent::EndLink => EventText::EndLink,
            OutputEvent::StartImage { link_type, dest_url, title, id } => EventText::StartImage(*link_type, dest_url@, title@, id@),
            OutputEvent::EndImage => EventText::EndImage,
        }
    }
}

/// A list of events seen as texts.
pub open spec fn event_texts(v: Seq<OutputEvent>) -> Seq<EventText> {
    v.map_values(|e: OutputEvent| e@)
}

/// The events of an image of a rendered file, wrapped in a link to the file
/// where `link_to_file` holds: both inline, without reference id.
pub open spec fn file_image_texts(file_name: Seq<char>, graph_name: Seq<char>, link_to_file: bool) -> Seq<EventText> {
    if link_to_file {
        seq![
            EventText::StartLink(LinkKind::Inline, file_name, graph_name, Seq::empty()),
            EventText::StartImage(LinkKind::Inline, file_name, graph_name, Seq::empty()),
            EventText::EndImage,
            EventText::EndLink,
        ]
    } else {
        seq![EventText::StartImage(LinkKind::Inline, file_name, graph_name, Seq::empty()), EventText::EndImage]
    }
}

/// The HTML event that closes an open heading before a diagram.
pub open spec fn separator_text() -> EventText {
    EventText::Html(BLOCK_SEPARATOR@ + "\n\n"@)
}

/// The events of the image of a rendered file (see [`file_image_texts`]).
pub fn file_image_events(file_name: &str, graph_name: &str, link_to_file: bool) -> (r: Vec<OutputEvent>)
    ensures
        event_texts(r@) == file_image_texts(file_name@, graph_name@, link_to_file),
{
    let mut nodes: Vec<OutputEvent> = Vec::new();
    if link_to_file {
        nodes.push(OutputEvent::StartLink {
            link_type: LinkKind::Inline,
            dest_url: String::from_str(file_name),
            title: String::from_str(graph_name),
            id: String::new(),
        });
    }
    nodes.push(OutputEvent::StartImage {
        link_type: LinkKind::Inline,
        dest_url: String::from_str(file_name),
        title: String::from_str(graph_name),
        id: String::new(),
    });
    nodes.push(OutputEvent::EndImage);
    if link_to_file {
        nodes.push(OutputEvent::EndLink);
    }
    assert(event_texts(nodes@) == file_image_texts(file_name@, graph_name@, link_to_file));
    nodes
}

fn separator_event() -> (r: OutputEvent)
    ensures
        r@ == separator_text(),
{
    let mut s = String::from_str(BLOCK_SEPARATOR);
    s.append("\n\n");
    OutputEvent::Html(s)
}

/// The separator and the diagram's HTML.
pub fn html_diagram_events(html: String) -> (r: Vec<OutputEvent>)
    ensures
        event_texts(r@) == seq![separator_text(), EventText::Html(html@)],
{
    let mut v: Vec<OutputEvent> = Vec::new();
    v.push(separator_event());
    v.push(OutputEvent::Html(html));
    assert(event_texts(v@) == seq![separator_text(), EventText::Html(html@)]);
    v
}

/// The events of a themed diagram's HTML, before which the theme style sheet
/// goes where the settings ask for it and the chapter has not had it yet.
pub open spec fn themed_html_texts(html: Seq<char>, inject: bool, emitted: bool) -> Seq<EventText> {
    if inject && !emitted {
        seq![separator_text(), EventText::Html(style_tag()), EventText::Html(html)]
    } else {
        seq![separator_text(), EventText::Html(html)]
    }
}

/// The separator, the theme style sheet where it is due, and the diagram's
/// HTML. The injector is asked only where the settings inject the style sheet.
pub fn themed_html_diagram_events(html: String, config: &Config, theme_css: &mut ThemeCssInjector) -> (r: Vec<OutputEvent>)
    ensures
        event_texts(r@) == themed_html_texts(html@, config.inject_theme_css, old(theme_css).emitted()),
        final(theme_css).emitted() == (old(theme_css).emitted() || config.inject_theme_css),
{
    let mut events: Vec<OutputEvent> = Vec::new();
    events.push(separator_event());
    if config.inject_theme_css {
        if let Some(style) = theme_css.take_style_tag() {
            events.push(OutputEvent::Html(style));
        }
    }
    events.push(OutputEvent::Html(html));
    assert(event_texts(events@) == themed_html_texts(html@, config.inject_theme_css, old(theme_css).emitted()));
    events
}

/// Why a diagram could not be prepared for rendering.
#[derive(Debug, Clone)]
pub enum RenderError {
    /// Themed output was asked for without a theme.
    MissingTheme,
    /// The theme lacks tokens that the diagram or the preamble names.
    Theme(ThemeError),
}

/// A [`RenderError`] seen as texts: `None` for a missing theme, the missing
/// token names otherwise.
pub open spec fn render_failure(e: RenderError) -> Option<Seq<Seq<char>>> {
    match e {
        RenderError::MissingTheme => None,
        RenderError::Theme(t) => Some(t.keys()),
    }
}

impl RenderError {
    /// The message that reports the error.
    pub fn message(&self) -> (r: String)
        ensures
            match self {
                RenderError::MissingTheme => r@ == "missing theme configuration"@,
                RenderError::Theme(t) => r@ == "missing theme keys: "@ + crate::theme::join_with(t.keys(), ", "@),
            },
    {
        match self {
            RenderError::MissingTheme => String::from_str("missing theme configuration"),
            RenderError::Theme(t) => t.message(),
        }
    }
}

/// The light and the dark source of a themed diagram, or why there are none.
pub open spec fn themed_sources(code: Seq<char>, config: Config) -> Result<(Seq<char>, Seq<char>), Option<Seq<Seq<char>>>> {
    match config.theme {
        None => Err(None),
        Some(theme) => match prepared(code, theme.light@, theme.preamble) {
            Err(keys) => Err(Some(keys)),
            Ok(light) => match prepared(code, theme.dark@, theme.preamble) {
                Err(keys) => Err(Some(keys)),
                Ok(dark) => Ok((light, dark)),
            },
        },
    }
}

/// The source prepared with the light and with the dark tokens of the theme.
pub fn themed_dot_sources(code: &str, config: &Config) -> (r: Result<(String, String), RenderError>)
    ensures
        match r {
            Ok((l, d)) => themed_sources(code@, *config) == Ok::<(Seq<char>, Seq<char>), Option<Seq<Seq<char>>>>((l@, d@)),
            Err(e) => themed_sources(code@, *config) == Err::<(Seq<char>, Seq<char>), Option<Seq<Seq<char>>>>(render_failure(e)),
        },
{
    let theme = match &config.theme {
        Some(t) => t,
        None => return Err(RenderError::MissingTheme),
    };
    let preamble = match &theme.preamble {
        Some(p) => Some(p),
        None => None,
    };
    let light = match prepare_dot(code, &theme.light, preamble) {
        Ok(s) => s,
        Err(e) => return Err(RenderError::Theme(e)),
    };
    let dark = match prepare_dot(code, &theme.dark, preamble) {
        Ok(s) => s,
        Err(e) => return Err(RenderError::Theme(e)),
    };
    Ok((light, dark))
}

} // verus!

verus! {

/// One run of `dot`: its arguments, the source given on its standard input,
/// and the file it writes where it writes one (its SVG output is read from its
/// standard output otherwise).
#[derive(Debug, Clone)]
pub struct DotJob {
    /// The arguments, `-o` and the output path included where there is a file.
    pub arguments: Vec<String>,
    /// The Graphviz source.
    pub source: String,
    /// The file that the run writes.
    pub output_file: Option<String>,
}

/// A [`DotJob`] seen as texts.
pub struct DotRun {
    pub arguments: Seq<Seq<char>>,
    pub source: Seq<char>,
    pub output_file: Option<Seq<char>>,
}

impl View for DotJob {
    type V = DotRun;

    open spec fn view(&self) -> DotRun {
        DotRun {
            arguments: texts(self.arguments@),
            source: self.source@,
            output_file: match self.output_file {
                Some(f) => Some(f@),
                None => None,
            },
        }
    }
}

/// A run that writes `source`, rendered, to `path`.
pub open spec fn file_run(arguments: Seq<Seq<char>>, source: Seq<char>, path: Seq<char>) -> DotRun {
    DotRun { arguments: arguments + seq!["-o"@, path], source, output_file: Some(path) }
}

/// A run whose rendering of `source` is read from its output.
pub open spec fn svg_run(arguments: Seq<Seq<char>>, source: Seq<char>) -> DotRun {
    DotRun { arguments, source, output_file: None }
}

/// How many runs of `dot` a diagram takes: two with themes, one without.
pub open spec fn run_count(config: Config) -> nat {
    if config.themed_output {
        2
    } else {
        1
    }
}

/// How many runs of `dot` a diagram takes (see [`run_count`]).
pub fn runs_per_diagram(config: &Config) -> (r: usize)
    ensures
        r == run_count(*config),
{
    if config.themed_output {
        2
    } else {
        1
    }
}

/// The path of the light (or only) file of a block.
pub open spec fn block_light_path(block: DiagramBlock) -> Seq<char> {
    join_path(block.chapter_path@, light_name(block.chapter_name@, block.graph_name@, block.index as nat))
}

/// The path of the dark file of a block.
pub open spec fn block_dark_path(block: DiagramBlock, dark_suffix: Seq<char>) -> Seq<char> {
    join_path(block.chapter_path@, dark_name(block.chapter_name@, block.graph_name@, block.index as nat, dark_suffix))
}

/// The runs of `dot` that render `block`: the light and the dark source with
/// themes, the code as written without; to files next to the chapter or to
/// output that is inlined.
pub open spec fn planned_runs(block: DiagramBlock, config: Config) -> Result<Seq<DotRun>, Option<Seq<Seq<char>>>> {
    let args = texts(config.arguments@);
    if config.themed_output {
        match themed_sources(block.code@, config) {
            Err(e) => Err(e),
            Ok((l, d)) => Ok(
                if config.output_to_file {
                    seq![
                        file_run(args, l, block_light_path(block)),
                        file_run(args, d, block_dark_path(block, config.dark_suffix@)),
                    ]
                } else {
                    seq![svg_run(args, l), svg_run(args, d)]
                },
            ),
        }
    } else {
        Ok(
            if config.output_to_file {
                seq![file_run(args, block.code@, block_light_path(block))]
            } else {
                seq![svg_run(args, block.code@)]
            },
        )
    }
}

/// A list of jobs seen as texts.
pub open spec fn runs_of(v: Seq<DotJob>) -> Seq<DotRun> {
    v.map_values(|j: DotJob| j@)
}

fn clone_strings(v: &Vec<String>) -> (r: Vec<String>)
    ensures
        texts(r@) == texts(v@),
{
    let mut r: Vec<String> = Vec::new();
    let mut k: usize = 0;
    while k < v.len()
        invariant
            k <= v.len(),
            texts(r@) == texts(v@).take(k as int),
        decreases v.len() - k,
    {
        let ghost before = texts(r@);
        r.push(v[k].clone());
        assert(texts(r@) == before.push(v@[k as int]@));
        assert(texts(v@).take(k + 1) == texts(v@).take(k as int).push(v@[k as int]@));
        k += 1;
    }
    assert(texts(v@).take(v.len() as int) == texts(v@));
    r
}

fn file_job(arguments: &Vec<String>, source: String, path: String) -> (r: DotJob)
    ensures
        r@ == file_run(texts(arguments@), source@, path@),
{
    let mut args = clone_strings(arguments);
    let ghost before = texts(args@);
    args.push(String::from_str("-o"));
    args.push(path.clone());
    assert(texts(args@) == before + seq!["-o"@, path@]);
    DotJob { arguments: args, source, output_file: Some(path) }
}

fn svg_job(arguments: &Vec<String>, source: String) -> (r: DotJob)
    ensures
        r@ == svg_run(texts(arguments@), source@),
{
    DotJob { arguments: clone_strings(arguments), source, output_file: None }
}

/// The runs of `dot` that render `block` (see [`planned_runs`]).
pub fn dot_jobs(block: &DiagramBlock, config: &Config) -> (r: Result<Vec<DotJob>, RenderError>)
    ensures
        match r {
            Ok(jobs) => planned_runs(*block, *config) == Ok::<Seq<DotRun>, Option<Seq<Seq<char>>>>(runs_of(jobs@)),
            Err(e) => planned_runs(*block, *config) == Err::<Seq<DotRun>, Option<Seq<Seq<char>>>>(render_failure(e)),
        },
{
    let mut jobs: Vec<DotJob> = Vec::new();
    if config.themed_output {
        let (light, dark) = match themed_dot_sources(block.code.as_str(), config) {
            Ok(sources) => sources,
            Err(e) => return Err(e),
        };
        if config.output_to_file {
            let j1 = file_job(&config.arguments, light, block.light_path());
            let j2 = file_job(&config.arguments, dark, block.dark_path(config.dark_suffix.as_str()));
            jobs.push(j1);
            jobs.push(j2);
            assert(runs_of(jobs@) == seq![j1@, j2@]);
        } else {
            let j1 = svg_job(&config.arguments, light);
            let j2 = svg_job(&config.arguments, dark);
            jobs.push(j1);
            jobs.push(j2);
            assert(runs_of(jobs@) == seq![j1@, j2@]);
        }
    } else {
        if config.output_to_file {
            let j1 = file_job(&config.arguments, block.code.clone(), block.light_path());
            jobs.push(j1);
            assert(runs_of(jobs@) == seq![j1@]);
        } else {
            let j1 = svg_job(&config.arguments, block.code.clone());
            jobs.push(j1);
            assert(runs_of(jobs@) == seq![j1@]);
        }
    }
    Ok(jobs)
}

/// The events that replace `block` once its runs are done; `outputs` holds
/// what each run printed, in the order of [`planned_runs`] (only inlined
/// renderings read it). A blank line ends the events.
pub open spec fn diagram_texts(block: BlockText, config: Config, emitted: bool, outputs: Seq<Seq<char>>) -> Seq<EventText> {
    let light_file = light_name(block.chapter_name, block.graph_name, block.index);
    let dark_file = dark_name(block.chapter_name, block.graph_name, block.index, config.dark_suffix@);
    let body = if config.output_to_file {
        if config.themed_output {
            themed_html_texts(
                themed_file_html(config.theme_wrapper_class@, light_file, dark_file, block.graph_name),
                config.inject_theme_css,
                emitted,
            )
        } else {
            file_image_texts(light_file, block.graph_name, config.link_to_file)
        }
    } else {
        if config.themed_output {
            themed_html_texts(
                themed_inline_html(outputs[0], outputs[1], config.theme_wrapper_class@),
                config.inject_theme_css,
                emitted,
            )
        } else {
            seq![separator_text(), EventText::Html(inline_html(outputs[0]))]
        }
    };
    body.push(EventText::Text("\n\n"@))
}

/// Whether the style sheet has been handed out after a diagram.
pub open spec fn emitted_after(config: Config, emitted: bool) -> bool {
    emitted || (config.themed_output && config.inject_theme_css)
}

/// The events that replace `block` (see [`diagram_texts`]).
pub fn diagram_events(block: &DiagramBlock, config: &Config, theme_css: &mut ThemeCssInjector, outputs: &Vec<String>) -> (r: Vec<OutputEvent>)
    requires
        outputs.len() == run_count(*config),
    ensures
        event_texts(r@) == diagram_texts(block@, *config, old(theme_css).emitted(), texts(outputs@)),
        final(theme_css).emitted() == emitted_after(*config, old(theme_css).emitted()),
{
    let mut events = if config.output_to_file {
        let light_name = block.light_file_name();
        if config.themed_output {
            let dark_name = block.dark_file_name(config.dark_suffix.as_str());
            let html = themed_file_diagram(
                config.theme_wrapper_class.as_str(),
                light_name.as_str(),
                dark_name.as_str(),
                block.graph_name.as_str(),
            );
            themed_html_diagram_events(html, config, theme_css)
        } else {
            file_image_events(light_name.as_str(), block.graph_name.as_str(), config.link_to_file)
        }
    } else {
        if config.themed_output {
            let html = themed_inline_diagram(outputs[0].clone(), outputs[1].clone(), config.theme_wrapper_class.as_str());
            themed_html_diagram_events(html, config, theme_css)
        } else {
            html_diagram_events(inline_diagram(outputs[0].clone()))
        }
    };
    let ghost before = event_texts(events@);
    events.push(OutputEvent::Text(String::from_str("\n\n")));
    assert(event_texts(events@) == before.push(EventText::Text("\n\n"@)));
    events
}

/// Whatever the mode, the events of a diagram end with a paragraph break, so
/// that what follows the diagram starts a block of its own.
pub proof fn law_diagram_ends_with_paragraph_break(block: BlockText, config: Config, emitted: bool, outputs: Seq<Seq<char>>)
    ensures
        diagram_texts(block, config, emitted, outputs).len() > 0,
        diagram_texts(block, config, emitted, outputs).last() == EventText::Text("\n\n"@),
{
}

/// Themed output prepares the light and the dark source alike: each from the
/// code, the preamble and the tokens of its own variant; where both can be
/// prepared, the sources are those two.
pub proof fn law_themed_sources_are_prepared_alike(code: Seq<char>, config: Config)
    requires
        config.theme is Some,
    ensures
        ({
            let theme = config.theme->0;
            let light = prepared(code, theme.light@, theme.preamble);
            let dark = prepared(code, theme.dark@, theme.preamble);
            &&& (light is Ok && dark is Ok) <==> themed_sources(code, config) is Ok
            &&& themed_sources(code, config) matches Ok((l, d)) ==> light == Ok::<Seq<char>, Seq<Seq<char>>>(l)
                && dark == Ok::<Seq<char>, Seq<Seq<char>>>(d)
        }),
{
}

/// With themes, a diagram takes two runs of `dot`: the first renders the
/// source prepared from the light tokens, the second the source prepared from
/// the dark tokens, both with the same arguments; to the light and the dark
/// file next to the chapter in file mode, to output that is read back
/// otherwise.
pub proof fn law_themed_runs_render_light_then_dark(block: DiagramBlock, config: Config)
    requires
        config.themed_output,
        config.theme is Some,
    ensures
        planned_runs(block, config) matches Ok(runs) ==> {
            let theme = config.theme->0;
            &&& runs.len() == 2
            &&& prepared(block.code@, theme.light@, theme.preamble) == Ok::<Seq<char>, Seq<Seq<char>>>(runs[0].source)
            &&& prepared(block.code@, theme.dark@, theme.preamble) == Ok::<Seq<char>, Seq<Seq<char>>>(runs[1].source)
            &&& runs[0].output_file == (if config.output_to_file { Some(block_light_path(block)) } else { None })
            &&& runs[1].output_file == (if config.output_to_file {
                Some(block_dark_path(block, config.dark_suffix@))
            } else {
                None
            })
        },
{
}

/// Without themes, a diagram rendered to a file is shown as an inline image of
/// the light file's name (relative to the chapter, never its directory on
/// disk), titled by the graph name and without reference id; `link_to_file`
/// only wraps that image in an inline link to the same name.
pub proof fn law_file_image_points_at_light_file(block: BlockText, config: Config, emitted: bool, outputs: Seq<Seq<char>>)
    requires
        config.output_to_file,
        !config.themed_output,
    ensures
        ({
            let name = light_name(block.chapter_name, block.graph_name, block.index);
            let image = EventText::StartImage(LinkKind::Inline, name, block.graph_name, Seq::empty());
            let link = EventText::StartLink(LinkKind::Inline, name, block.graph_name, Seq::empty());
            let break_text = EventText::Text("\n\n"@);
            diagram_texts(block, config, emitted, outputs) == if config.link_to_file {
                seq![link, image, EventText::EndImage, EventText::EndLink, break_text]
            } else {
                seq![image, EventText::EndImage, break_text]
            }
        }),
{
    let name = light_name(block.chapter_name, block.graph_name, block.index);
    assert(diagram_texts(block, config, emitted, outputs) =~= file_image_texts(name, block.graph_name, config.link_to_file).push(EventText::Text("\n\n"@)));
}

/// In the other modes a diagram is its HTML after the separator (and the
/// style sheet, where due), then a paragraph break: without themes and files,
/// the first output inlined; with themes and without files, the first output
/// as the light rendering and the second as the dark one; with themes and
/// files, images of the light and the dark file, both titled by the graph
/// name.
pub proof fn law_diagram_html_by_mode(block: BlockText, config: Config, emitted: bool, outputs: Seq<Seq<char>>)
    requires
        !config.output_to_file || config.themed_output,
    ensures
        ({
            let wrapper = config.theme_wrapper_class@;
            let html = if !config.themed_output {
                inline_html(outputs[0])
            } else if config.output_to_file {
                themed_file_html(
                    wrapper,
                    light_name(block.chapter_name, block.graph_name, block.index),
                    dark_name(block.chapter_name, block.graph_name, block.index, config.dark_suffix@),
                    block.graph_name,
                )
            } else {
                themed_inline_html(outputs[0], outputs[1], wrapper)
            };
            let style = config.themed_output && config.inject_theme_css && !emitted;
            diagram_texts(block, config, emitted, outputs) == if style {
                seq![separator_text(), EventText::Html(style_tag()), EventText::Html(html), EventText::Text("\n\n"@)]
            } else {
                seq![separator_text(), EventText::Html(html), EventText::Text("\n\n"@)]
            }
        }),
{
}

} // verus!
