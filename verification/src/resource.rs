//! The `math` resource a host holds: a session, or the error of the source
//! that could not be laid out, plus the last theme the host injected.
//!
//! The resource's constructor has no error channel, so a source that fails
//! to lay out leaves the resource in a failed state; every render then
//! reports that error, and a later source update retries with the theme the
//! host injected last, so no theme is lost.

use vstd::prelude::*;
use crate::Error;
use crate::session::{Session, SessionView, Theme, after_update, is_laid_out, laid_out};

verus! {

/// Ready with a session, or failed with the error message.
pub enum MathState<S> {
    Ready(Session<S>),
    Failed(String),
}

/// The resource as plain values.
pub struct MathResourceView<S> {
    pub theme: Theme<S>,
    /// The session, or the error message of the failed state.
    pub state: Result<SessionView<S>, Seq<char>>,
}

/// A math resource.
pub struct MathResource<S> {
    theme: Theme<S>,
    state: MathState<S>,
}

impl<S> View for MathResource<S> {
    type V = MathResourceView<S>;

    closed spec fn view(&self) -> MathResourceView<S> {
        MathResourceView {
            theme: self.theme,
            state: match self.state {
                MathState::Ready(s) => Ok(s@),
                MathState::Failed(m) => Err(m@),
            },
        }
    }
}

/// The session a fresh layout of `source` gives, with the given theme.
pub open spec fn fresh_session<S>(source: Seq<char>, theme: Theme<S>) -> SessionView<S> {
    SessionView {
        source,
        theme,
        constraint_width: None,
        display_list: laid_out(source)->Ok_0,
    }
}

/// A new resource: ready when the source lays out, failed with the error
/// text otherwise; the theme is kept either way.
pub open spec fn created<S>(source: Seq<char>, theme: Theme<S>) -> MathResourceView<S> {
    MathResourceView {
        theme,
        state: match laid_out(source) {
            Ok(_) => Ok(fresh_session(source, theme)),
            Err(m) => Err(m),
        },
    }
}

/// The resource after a source update: a ready resource updates its
/// session; a failed one becomes ready, with the last injected theme, when
/// the source lays out, and stays as it is otherwise.
pub open spec fn after_source_update<S>(v: MathResourceView<S>, source: Seq<char>) -> MathResourceView<S> {
    match v.state {
        Ok(s) => MathResourceView { state: Ok(after_update(s, source)), ..v },
        Err(_) => match laid_out(source) {
            Ok(_) => MathResourceView { state: Ok(fresh_session(source, v.theme)), ..v },
            Err(_) => v,
        },
    }
}

/// The resource after a theme injection: the theme is remembered and, when
/// ready, handed to the session.
pub open spec fn after_set_theme<S>(v: MathResourceView<S>, theme: Theme<S>) -> MathResourceView<S> {
    MathResourceView {
        theme,
        state: match v.state {
            Ok(s) => Ok(SessionView { theme, ..s }),
            Err(m) => Err(m),
        },
    }
}

/// The resource after a width constraint change: only a ready resource has
/// a session to constrain.
pub open spec fn after_set_constraint<S>(v: MathResourceView<S>, width: Option<S>) -> MathResourceView<S> {
    MathResourceView {
        state: match v.state {
            Ok(s) => Ok(SessionView { constraint_width: width, ..s }),
            Err(m) => Err(m),
        },
        ..v
    }
}

/// A host call on a resource, as plain values.
pub enum ResourceOp<S> {
    UpdateSource(Seq<char>),
    SetTheme(Theme<S>),
    SetConstraint(Option<S>),
}

/// The resource after one host call.
pub open spec fn after_op<S>(v: MathResourceView<S>, op: ResourceOp<S>) -> MathResourceView<S> {
    match op {
        ResourceOp::UpdateSource(source) => after_source_update(v, source),
        ResourceOp::SetTheme(theme) => after_set_theme(v, theme),
        ResourceOp::SetConstraint(width) => after_set_constraint(v, width),
    }
}

/// The resource after a sequence of host calls, in order.
pub open spec fn after_ops<S>(v: MathResourceView<S>, ops: Seq<ResourceOp<S>>) -> MathResourceView<S>
    decreases ops.len(),
{
    if ops.len() == 0 {
        v
    } else {
        after_op(after_ops(v, ops.drop_last()), ops.last())
    }
}

/// No source update among the calls lays out.
pub open spec fn no_update_succeeds<S>(ops: Seq<ResourceOp<S>>) -> bool {
    forall|i: int|
        0 <= i < ops.len() ==> match #[trigger] ops[i] {
            ResourceOp::UpdateSource(source) => laid_out(source) is Err,
            _ => true,
        }
}

/// Law: a failed resource stays failed with the same error through any
/// sequence of theme injections, width changes and failed source updates.
pub proof fn lemma_failed_resource_keeps_error<S>(v: MathResourceView<S>, ops: Seq<ResourceOp<S>>)
    requires
        v.state is Err,
        no_update_succeeds(ops),
    ensures
        after_ops(v, ops).state == v.state,
    decreases ops.len(),
{
    if ops.len() > 0 {
        let d = ops.drop_last();
        assert forall|i: int| 0 <= i < d.len() implies match #[trigger] d[i] {
            ResourceOp::UpdateSource(source) => laid_out(source) is Err,
            _ => true,
        } by {
            assert(d[i] == ops[i]);
        }
        lemma_failed_resource_keeps_error(v, d);
        assert(ops.last() == ops[ops.len() - 1]);
    }
}

/// Law: a resource created from a source that does not lay out reports
/// that source's error on every render, until a source update succeeds.
pub proof fn lemma_created_failure_is_reported<S>(
    source: Seq<char>,
    theme: Theme<S>,
    ops: Seq<ResourceOp<S>>,
)
    requires
        laid_out(source) is Err,
        no_update_succeeds(ops),
    ensures
        after_ops(created(source, theme), ops).state == Err::<SessionView<S>, Seq<char>>(
            laid_out(source)->Err_0,
        ),
{
    lemma_failed_resource_keeps_error(created(source, theme), ops);
}

/// Law: a new resource keeps the theme it is given. It is ready, with a
/// session holding the source, its layout, that theme and no width
/// constraint, exactly when the source lays out; otherwise it is failed with
/// the source's error.
pub proof fn lemma_created<S>(source: Seq<char>, theme: Theme<S>)
    ensures
        created(source, theme).theme == theme,
        laid_out(source) is Ok ==> (created(source, theme).state matches Ok(s) && s.source == source
            && s.theme == theme && s.constraint_width is None && is_laid_out(s)),
        laid_out(source) matches Err(m) ==> created(source, theme).state == Err::<SessionView<S>, Seq<char>>(m),
{
}

/// Law: a source update never changes the resource's theme. When the
/// source lays out the resource is ready afterwards with a session holding
/// that source and its layout; a ready resource keeps its session's theme
/// and width constraint, a failed one starts a session in the resource's
/// theme without constraint.
pub proof fn lemma_source_update<S>(v: MathResourceView<S>, source: Seq<char>)
    ensures
        after_source_update(v, source).theme == v.theme,
        laid_out(source) is Ok ==> (after_source_update(v, source).state matches Ok(t) && t.source
            == source && is_laid_out(t) && match v.state {
                Ok(s) => t.theme == s.theme && t.constraint_width == s.constraint_width,
                Err(_) => t.theme == v.theme && t.constraint_width is None,
            }),
{
}

/// Law: a width constraint reaches the session of a ready resource and
/// changes nothing else; a failed resource is left as it is.
pub proof fn lemma_set_constraint_reaches_session<S>(v: MathResourceView<S>, width: Option<S>)
    ensures
        after_set_constraint(v, width).theme == v.theme,
        match v.state {
            Ok(s) => after_set_constraint(v, width).state matches Ok(t) && t.constraint_width == width
                && t.source == s.source && t.theme == s.theme && t.display_list == s.display_list,
            Err(m) => after_set_constraint(v, width).state == Err::<SessionView<S>, Seq<char>>(m),
        },
{
}

/// A ready resource's session has the resource's last injected theme.
pub open spec fn session_has_resource_theme<S>(v: MathResourceView<S>) -> bool {
    v.state matches Ok(s) ==> s.theme == v.theme
}

/// Law: injecting a theme makes it the theme of the resource and, when the
/// resource is ready, of its session, in every field.
pub proof fn lemma_set_theme_reaches_session<S>(v: MathResourceView<S>, theme: Theme<S>)
    ensures
        after_set_theme(v, theme).theme == theme,
        after_set_theme(v, theme).state matches Ok(s) ==> s.theme == theme,
        v.state is Ok <==> after_set_theme(v, theme).state is Ok,
{
}

/// Law: a ready resource always renders with the last injected theme. A
/// new resource, and every host call after it, keeps the session's theme
/// equal to the resource's.
pub proof fn lemma_session_theme_is_resource_theme<S>(
    source: Seq<char>,
    theme: Theme<S>,
    ops: Seq<ResourceOp<S>>,
)
    ensures
        session_has_resource_theme(after_ops(created(source, theme), ops)),
    decreases ops.len(),
{
    if ops.len() > 0 {
        lemma_session_theme_is_resource_theme(source, theme, ops.drop_last());
    }
}

/// Law: no injected theme is lost. A failed resource that is given a theme
/// and then a source that lays out becomes ready with a session in that
/// theme.
pub proof fn lemma_theme_survives_failure<S>(v: MathResourceView<S>, theme: Theme<S>, source: Seq<char>)
    requires
        v.state is Err,
        laid_out(source) is Ok,
    ensures
        after_source_update(after_set_theme(v, theme), source).state == Ok::<SessionView<S>, Seq<char>>(
            fresh_session(source, theme),
        ),
{
}

/// Law: a source update that fails leaves the resource as it was, ready or
/// failed.
pub proof fn lemma_failed_update_keeps_resource<S>(v: MathResourceView<S>, source: Seq<char>)
    requires
        laid_out(source) is Err,
    ensures
        after_source_update(v, source) == v,
{
    if let Ok(s) = v.state {
        assert(after_update(s, source) == s);
    }
}

impl<S: Copy> MathResource<S> {
    /// Creates the resource: ready when the source lays out, failed with the
    /// error message otherwise.
    pub fn new(source: &str, theme: Theme<S>) -> (r: Self)
        ensures
            r@ == created(source@, theme),
    {
        let outcome = Session::construct(source, theme.copied());
        Self::from_outcome(outcome, theme)
    }

    /// The resource an attempt to start a session ends in: ready with the
    /// session, or failed with the error's message; the theme is kept either
    /// way.
    pub fn from_outcome(outcome: Result<Session<S>, Error>, theme: Theme<S>) -> (r: Self)
        ensures
            r@.theme == theme,
            match outcome {
                Ok(s) => r@.state == Ok::<SessionView<S>, Seq<char>>(s@),
                Err(e) => r@.state == Err::<SessionView<S>, Seq<char>>(e.0@),
            },
    {
        let state = match outcome {
            Ok(session) => MathState::Ready(session),
            Err(e) => MathState::Failed(e.0),
        };
        MathResource { theme, state }
    }

    /// Updates the source, as [`after_source_update`] describes; the error
    /// text is returned when the source does not lay out.
    pub fn update_source(&mut self, source: &str) -> (r: Result<(), String>)
        ensures
            final(self)@ == after_source_update(old(self)@, source@),
            r is Ok <==> laid_out(source@) is Ok,
            r matches Err(m) ==> laid_out(source@) == Err::<
                ratex_types::display_item::DisplayList,
                Seq<char>,
            >(m@),
    {
        match &mut self.state {
            MathState::Ready(session) => match session.update_source(source) {
                Ok(()) => Ok(()),
                Err(e) => Err(e.0),
            },
            MathState::Failed(_) => match Session::construct(source, self.theme.copied()) {
                Ok(session) => {
                    self.state = MathState::Ready(session);
                    Ok(())
                },
                Err(e) => Err(e.0),
            },
        }
    }

    /// Sets or clears the width constraint of a ready resource.
    pub fn set_constraint(&mut self, width: Option<S>)
        ensures
            final(self)@ == after_set_constraint(old(self)@, width),
    {
        match &mut self.state {
            MathState::Ready(session) => session.set_constraint(width),
            MathState::Failed(_) => {},
        }
    }

    /// Injects a theme.
    pub fn set_theme(&mut self, theme: Theme<S>)
        ensures
            final(self)@ == after_set_theme(old(self)@, theme),
            final(self)@.theme == theme,
            final(self)@.state matches Ok(s) ==> s.theme == theme,
    {
        self.theme = theme.copied();
        match &mut self.state {
            MathState::Ready(session) => session.set_theme(theme),
            MathState::Failed(_) => {},
        }
    }

    /// The last injected theme.
    pub fn theme(&self) -> (t: &Theme<S>)
        ensures
            *t == self@.theme,
    {
        &self.theme
    }

    /// The session to render, or the error every render of a failed
    /// resource reports.
    pub fn session(&self) -> (r: Result<&Session<S>, String>)
        ensures
            match self@.state {
                Ok(s) => r matches Ok(session) && session@ == s && is_laid_out(s),
                Err(m) => r matches Err(msg) && msg@ == m,
            },
    {
        match &self.state {
            MathState::Ready(session) => {
                proof {
                    use_type_invariant(session);
                    session.lemma_invariant_laid_out();
                }
                Ok(session)
            },
            MathState::Failed(msg) => Err(msg.clone()),
        }
    }
}

} // verus!
