//! Rendering sessions: a formula source, laid out once, and the theme and
//! width constraint it is rendered with.
//!
//! Parsing and layout are done by the RaTeX engine (`ratex-parser`,
//! `ratex-layout`); the session keeps the resulting display list and only
//! replaces it when a new source lays out successfully.

use vstd::prelude::*;
use crate::Error;
use ratex_layout::LayoutBox;
use ratex_parser::{ParseError, ParseNode};
use ratex_types::display_item::DisplayList;

verus! {

#[verifier::external_type_specification]
#[verifier::external_body]
pub struct ExParseNode(ParseNode);

#[verifier::external_type_specification]
#[verifier::external_body]
pub struct ExParseError(ParseError);

#[verifier::external_type_specification]
#[verifier::external_body]
pub struct ExLayoutBox(LayoutBox);

#[verifier::external_type_specification]
#[verifier::external_body]
pub struct ExDisplayList(DisplayList);

/// What `ratex_parser::parse` makes of a source: its parse nodes, or the
/// parse error.
pub uninterp spec fn parse_outcome(source: Seq<char>) -> Result<Seq<ParseNode>, ParseError>;

/// The text `ParseError`'s `Display` gives.
pub uninterp spec fn parse_error_text(e: ParseError) -> Seq<char>;

/// The box `ratex_layout::layout` builds from parse nodes with the default
/// layout options.
pub uninterp spec fn layout_of(nodes: Seq<ParseNode>) -> LayoutBox;

/// The display list `ratex_layout::to_display_list` flattens a box into.
pub uninterp spec fn display_list_of(b: LayoutBox) -> DisplayList;

/// Calls `ratex_parser::parse`, a pure function of the source text: the
/// parse nodes on success, the parse error otherwise.
#[verifier::external_body]
fn parse_latex(source: &str) -> (r: Result<Vec<ParseNode>, ParseError>)
    ensures
        match r {
            Ok(nodes) => parse_outcome(source@) == Ok::<Seq<ParseNode>, ParseError>(nodes@),
            Err(e) => parse_outcome(source@) == Err::<Seq<ParseNode>, ParseError>(e),
        },
{
    ratex_parser::parse(source)
}

/// Calls `ToString::to_string` on a `ratex_parser::ParseError`; its
/// `Display` writes `ParseError` and the message (with the position when
/// known), so the text is never empty.
#[verifier::external_body]
fn parse_error_message(e: &ParseError) -> (r: String)
    ensures
        r@ == parse_error_text(*e),
        r@.len() > 0,
{
    e.to_string()
}

/// Calls `ratex_layout::layout` with `LayoutOptions::default()`; the box
/// depends on the nodes alone.
#[verifier::external_body]
fn layout_nodes(nodes: &Vec<ParseNode>) -> (b: LayoutBox)
    ensures
        b == layout_of(nodes@),
{
    ratex_layout::layout(nodes, &ratex_layout::LayoutOptions::default())
}

/// Calls `ratex_layout::to_display_list`, a pure function of the box.
#[verifier::external_body]
fn flatten_box(b: &LayoutBox) -> (d: DisplayList)
    ensures
        d == display_list_of(*b),
{
    ratex_layout::to_display_list(b)
}

/// What laying out a source gives: its display list, or the parse error's
/// text.
pub open spec fn laid_out(source: Seq<char>) -> Result<DisplayList, Seq<char>> {
    match parse_outcome(source) {
        Ok(nodes) => Ok(display_list_of(layout_of(nodes))),
        Err(e) => Err(parse_error_text(e)),
    }
}

/// Parses and lays out a source (em units; y grows downwards, the baseline
/// at y = height).
pub fn layout_source(source: &str) -> (r: Result<DisplayList, Error>)
    ensures
        match r {
            Ok(d) => laid_out(source@) == Ok::<DisplayList, Seq<char>>(d),
            Err(e) => laid_out(source@) == Err::<DisplayList, Seq<char>>(e.0@) && e.0@.len() > 0,
        },
{
    match parse_latex(source) {
        Ok(nodes) => {
            let b = layout_nodes(&nodes);
            Ok(flatten_box(&b))
        },
        Err(e) => Err(Error(parse_error_message(&e))),
    }
}

/// Theme injected by the host: the only colour channel, and the base font
/// size in logical pixels.
#[derive(Debug)]
pub struct Theme<S> {
    pub foreground: String,
    pub font_size: S,
}

impl<S: Copy> Theme<S> {
    /// A copy of the theme.
    pub fn copied(&self) -> (t: Theme<S>)
        ensures
            t == *self,
    {
        Theme { foreground: self.foreground.clone(), font_size: self.font_size }
    }
}

/// A session as plain values.
pub struct SessionView<S> {
    pub source: Seq<char>,
    pub theme: Theme<S>,
    pub constraint_width: Option<S>,
    pub display_list: DisplayList,
}

/// The session after an update to `source`: the new source and its layout
/// when it lays out, else the session as it was.
pub open spec fn after_update<S>(v: SessionView<S>, source: Seq<char>) -> SessionView<S> {
    match laid_out(source) {
        Ok(d) => SessionView { source, display_list: d, ..v },
        Err(_) => v,
    }
}

/// Law: an update changes nothing but the source and its layout: the theme
/// and the width constraint stay; when the source lays out, the session
/// holds it and its layout.
pub proof fn lemma_update_keeps_theme_and_constraint<S>(v: SessionView<S>, source: Seq<char>)
    ensures
        after_update(v, source).theme == v.theme,
        after_update(v, source).constraint_width == v.constraint_width,
        laid_out(source) is Ok ==> after_update(v, source).source == source
            && laid_out(source) == Ok::<DisplayList, Seq<char>>(after_update(v, source).display_list),
{
}

/// Law: an update to a source that does not lay out leaves the session as
/// it was, so a later render shows the old content.
pub proof fn lemma_failed_update_keeps_session<S>(v: SessionView<S>, source: Seq<char>)
    requires
        laid_out(source) is Err,
    ensures
        after_update(v, source) == v,
{
}

/// Law: after an update to a source that lays out, the session holds that
/// source and its layout, whatever it held before.
pub proof fn lemma_update_replaces_content<S>(v: SessionView<S>, w: SessionView<S>, source: Seq<char>)
    requires
        laid_out(source) is Ok,
        v.theme == w.theme,
        v.constraint_width == w.constraint_width,
    ensures
        after_update(v, source) == after_update(w, source),
        after_update(v, source).source == source,
{
}

/// The invariant of every session: its display list is the layout of its
/// source (which therefore lays out).
pub open spec fn is_laid_out<S>(v: SessionView<S>) -> bool {
    laid_out(v.source) == Ok::<DisplayList, Seq<char>>(v.display_list)
}

/// Law: a session is determined by its source, theme and width constraint.
/// Two sessions that agree on these (the same source, the same theme, the
/// same last width constraint) hold the same display list, so they render
/// alike, whatever their histories of updates.
pub proof fn lemma_sessions_alike<S>(v: SessionView<S>, w: SessionView<S>)
    requires
        is_laid_out(v),
        is_laid_out(w),
        v.source == w.source,
        v.theme == w.theme,
        v.constraint_width == w.constraint_width,
    ensures
        v == w,
{
}

/// Law: only the last width constraint counts, and a constraint change
/// keeps the source, the theme and the layout.
pub proof fn lemma_last_constraint_wins<S>(v: SessionView<S>, a: Option<S>, b: Option<S>)
    ensures
        (SessionView { constraint_width: b, ..SessionView { constraint_width: a, ..v } }) == (
        SessionView { constraint_width: b, ..v }),
        (SessionView { constraint_width: a, ..v }).source == v.source,
        (SessionView { constraint_width: a, ..v }).theme == v.theme,
        (SessionView { constraint_width: a, ..v }).display_list == v.display_list,
{
}

/// Law: a session given a new theme is the session that starting afresh
/// from its source with that theme gives, with the same width constraint.
pub proof fn lemma_new_theme_is_fresh_session<S>(v: SessionView<S>, theme: Theme<S>)
    requires
        is_laid_out(v),
    ensures
        (SessionView { theme, ..v }) == (SessionView {
            source: v.source,
            theme,
            constraint_width: v.constraint_width,
            display_list: laid_out(v.source)->Ok_0,
        }),
{
}

/// A source and its layout, replaced together.
struct LaidOutSource {
    source: String,
    display_list: DisplayList,
}

/// A stateful rendering session: a source laid out into a display list (em
/// units), rendered with a theme and an optional fit-to-width constraint.
pub struct Session<S> {
    laid: LaidOutSource,
    theme: Theme<S>,
    constraint_width: Option<S>,
}

impl<S> View for Session<S> {
    type V = SessionView<S>;

    closed spec fn view(&self) -> SessionView<S> {
        SessionView {
            source: self.laid.source@,
            theme: self.theme,
            constraint_width: self.constraint_width,
            display_list: self.laid.display_list,
        }
    }
}

impl<S> Session<S> {
    /// The display list is always the layout of the source.
    #[verifier::type_invariant]
    pub(crate) closed spec fn layout_matches_source(self) -> bool {
        laid_out(self.laid.source@) == Ok::<DisplayList, Seq<char>>(self.laid.display_list)
    }

    /// The invariant, read through the view.
    pub(crate) proof fn lemma_invariant_laid_out(self)
        requires
            self.layout_matches_source(),
        ensures
            is_laid_out(self@),
    {
    }
}

impl<S: Copy> Session<S> {
    /// Starts a session. Fails, with the parse error's text, exactly when the
    /// source does not parse; there is no width constraint yet.
    pub fn construct(source: &str, theme: Theme<S>) -> (r: Result<Self, Error>)
        ensures
            r is Ok <==> laid_out(source@) is Ok,
            r matches Ok(s) ==> s@ == (SessionView {
                source: source@,
                theme,
                constraint_width: None,
                display_list: laid_out(source@)->Ok_0,
            }) && is_laid_out(s@),
            r matches Err(e) ==> laid_out(source@) == Err::<DisplayList, Seq<char>>(e.0@) && e.0@.len() > 0,
    {
        let display_list = layout_source(source)?;
        let laid = LaidOutSource { source: source.to_owned(), display_list };
        Ok(Session { laid, theme, constraint_width: None })
    }

    /// Replaces the source. When the new source does not lay out, the session
    /// keeps its old source and content and the error is returned.
    pub fn update_source(&mut self, source: &str) -> (r: Result<(), Error>)
        ensures
            final(self)@ == after_update(old(self)@, source@),
            final(self)@.theme == old(self)@.theme,
            final(self)@.constraint_width == old(self)@.constraint_width,
            is_laid_out(final(self)@),
            r is Ok <==> laid_out(source@) is Ok,
            r matches Err(e) ==> laid_out(source@) == Err::<DisplayList, Seq<char>>(e.0@) && e.0@.len() > 0,
    {
        proof {
            use_type_invariant(&*self);
        }
        let display_list = layout_source(source)?;
        self.laid = LaidOutSource { source: source.to_owned(), display_list };
        Ok(())
    }

    /// Sets or clears the fit-to-width constraint.
    pub fn set_constraint(&mut self, width: Option<S>)
        ensures
            final(self)@ == (SessionView { constraint_width: width, ..old(self)@ }),
            is_laid_out(final(self)@),
    {
        proof {
            use_type_invariant(&*self);
        }
        self.constraint_width = width;
    }

    /// Replaces the theme.
    pub fn set_theme(&mut self, theme: Theme<S>)
        ensures
            final(self)@ == (SessionView { theme, ..old(self)@ }),
            is_laid_out(final(self)@),
    {
        proof {
            use_type_invariant(&*self);
        }
        self.theme = theme;
    }

    /// The current theme.
    pub fn theme(&self) -> (t: &Theme<S>)
        ensures
            *t == self@.theme,
            is_laid_out(self@),
    {
        proof {
            use_type_invariant(self);
        }
        &self.theme
    }

    /// The current source.
    pub fn source(&self) -> (s: &str)
        ensures
            s@ == self@.source,
            is_laid_out(self@),
    {
        proof {
            use_type_invariant(self);
        }
        self.laid.source.as_str()
    }

    /// The current fit-to-width constraint.
    pub fn constraint_width(&self) -> (w: Option<S>)
        ensures
            w == self@.constraint_width,
            is_laid_out(self@),
    {
        proof {
            use_type_invariant(self);
        }
        self.constraint_width
    }

    /// The current display list: the layout of the current source.
    pub fn display_list(&self) -> (d: &DisplayList)
        ensures
            *d == self@.display_list,
            laid_out(self@.source) == Ok::<DisplayList, Seq<char>>(*d),
    {
        proof {
            use_type_invariant(self);
        }
        &self.laid.display_list
    }
}

} // verus!
