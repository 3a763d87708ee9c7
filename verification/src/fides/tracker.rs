//! The middleware: checks before a call, labels after it.
use crate::fides::content_label::{ContentLabel, ContentLabelView};
use crate::fides::delivery::{
    are_references_for, conclude, concluded, draw_references, part_count, settled,
};
use crate::fides::event::{call_event, make_call_event};
use crate::fides::invocation::{InvocationView, ToolInvocation};
use crate::fides::message::{
    fails_plainly, outcome, security_error, text_item, CallToolRequestParams, CallToolResult,
    CallView, ContentItem, ResultView, SecurityError, Tool, ToolView,
};
use crate::fides::policy::{ConfigView, SecureAgentConfig};
use crate::fides::references::{
    is_internal, join_labels, joined_labels, resolve_call, resolved,
    resolved_references_are_known, INSPECT_VARIABLE, QUARANTINED_LLM,
};
use crate::fides::session::{Session, SessionView};
use crate::json::{entries_view, json_text, Entries, Json, JsonView};
use crate::line::line_of;
use crate::table::Table;
use crate::text::{fresh_identifier, is_identifier, same_text};
use crate::views::{lemma_views_push, option_view, views};
use vstd::prelude::*;

verus! {

/// How many sessions are tracked at most.
pub const MAX_SESSIONS: usize = 1024;

/// Tracks the labels of sessions, checks calls and labels their results.
#[derive(Debug)]
pub struct LabelTracker {
    pub(crate) config: SecureAgentConfig,
    pub(crate) sessions: Table<String, Session>,
    pub(crate) pending: Vec<Json>,
    pub(crate) log_failed: bool,
    pub(crate) warned: bool,
}

/// What a tracker stands for.
#[verifier::ext_equal]
pub struct TrackerView {
    pub config: ConfigView,
    pub sessions: Map<Seq<char>, SessionView>,
    /// The events that are still to be written.
    pub pending: Seq<JsonView>,
    /// Whether an event could not be written.
    pub log_failed: bool,
    /// Whether that has been reported.
    pub warned: bool,
}

impl View for LabelTracker {
    type V = TrackerView;

    open(crate) spec fn view(&self) -> TrackerView {
        TrackerView {
            config: self.config@,
            sessions: self.sessions@,
            pending: views(self.pending@),
            log_failed: self.log_failed,
            warned: self.warned,
        }
    }
}

impl InvocationView {
    /// What an inspection shows: the text of the variable, or its JSON text where it is none.
    pub open spec fn inspection(self) -> Option<ResultView> {
        if self.name == INSPECT_VARIABLE@ && self.variables.len() > 0 {
            let text = match self.variables[0] {
                JsonView::Text(text) => text,
                payload => json_text(payload),
            };
            Some(ResultView::complete(seq![text_item(text)], false))
        } else {
            None
        }
    }
}

impl TrackerView {
    /// A tracker of no session.
    pub open spec fn empty(config: ConfigView) -> TrackerView {
        TrackerView {
            config,
            sessions: Map::empty(),
            pending: Seq::empty(),
            log_failed: false,
            warned: false,
        }
    }

    /// There are no more sessions than may be, and none of them holds more than it may.
    pub open spec fn bounded(self) -> bool {
        &&& self.sessions.dom().finite()
        &&& self.sessions.len() <= MAX_SESSIONS
        &&& forall|id: Seq<char>|
            self.sessions.contains_key(id) ==> (#[trigger] self.sessions[id]).bounded()
    }

    /// The label of a session; the initial one where nothing has happened in it.
    pub open spec fn context_label(self, session_id: Seq<char>) -> ContentLabelView {
        if self.sessions.contains_key(session_id) {
            self.sessions[session_id].label
        } else {
            self.config.initial_label
        }
    }

    /// The tracker with events to be written, unless writing has failed.
    pub open spec fn emit(self, events: Seq<JsonView>) -> TrackerView {
        TrackerView {
            pending: if self.log_failed {
                self.pending
            } else {
                self.pending + events
            },
            ..self
        }
    }

    /// The lines of the events that are still to be written, oldest first.
    pub open spec fn lines(self) -> Seq<Seq<u8>> {
        self.pending.map_values(|event: JsonView| line_of(event))
    }

    /// The line that is to be written next.
    pub open spec fn next_line(self) -> Option<Seq<u8>> {
        if self.pending.len() > 0 {
            Some(line_of(self.pending[0]))
        } else {
            None
        }
    }

    /// The tracker once its next line is taken out.
    pub open spec fn taken(self) -> TrackerView {
        TrackerView {
            pending: if self.pending.len() > 0 {
                self.pending.drop_first()
            } else {
                self.pending
            },
            ..self
        }
    }

    /// The tracker once it is known whether a line could be written.
    pub open spec fn noted(self, written: bool) -> TrackerView {
        if written {
            self
        } else {
            TrackerView { pending: Seq::empty(), log_failed: true, ..self }
        }
    }

    /// What is tried to be written, line by line until none is left, and the tracker
    /// afterwards. Of each line `works` says whether it can be written.
    pub open spec fn flush(self, works: Seq<bool>) -> (Seq<Seq<u8>>, TrackerView)
        decreases self.pending.len(),
    {
        match self.next_line() {
            Some(line) => {
                let (later, after) = self.taken().noted(works[0]).flush(works.drop_first());
                (seq![line] + later, after)
            },
            None => (Seq::empty(), self),
        }
    }

    /// Whether a call is looked at: it calls the tool that it is checked against, in a session
    /// that is tracked or can be.
    pub open spec fn admits(self, session_id: Seq<char>, tool: ToolView, call: CallView) -> bool {
        &&& tool.name == call.name
        &&& self.sessions.contains_key(session_id) || self.sessions.len() < MAX_SESSIONS
    }

    /// The tracker with the session tracked, under `trace_id` where it is new.
    pub open spec fn track(self, session_id: Seq<char>, trace_id: Seq<char>) -> TrackerView {
        if self.sessions.contains_key(session_id) {
            self
        } else {
            TrackerView {
                sessions: self.sessions.insert(
                    session_id,
                    SessionView::fresh(trace_id, self.config.initial_label),
                ),
                ..self
            }
        }
    }

    /// The invocation that a call in a tracked session becomes, under the name `id`; none
    /// where a reference in it is not known or its arguments are not well-formed.
    pub open spec fn invocation(
        self,
        session_id: Seq<char>,
        tool: ToolView,
        call: CallView,
        id: Seq<char>,
    ) -> Option<InvocationView> {
        let session = self.sessions[session_id];
        match resolved(session.variables, call.name, call.arguments) {
            Some(resolution) => {
                let label = joined_labels(session.variables, session.label, resolution.references);
                let configured = self.config.policy(tool);
                let policy = if is_internal(call.name) {
                    configured.internal()
                } else {
                    configured
                };
                Some(
                    InvocationView {
                        id,
                        session_id,
                        name: call.name,
                        arguments: resolution.arguments,
                        label,
                        policy,
                        variables: resolution.variables,
                        blocked: !policy.allows(label) && self.config.block_on_violation,
                    },
                )
            },
            None => None,
        }
    }

    /// Checks a call before it is dispatched.
    pub open spec fn begin(
        self,
        session_id: Seq<char>,
        tool: ToolView,
        call: CallView,
        trace_id: Seq<char>,
        id: Seq<char>,
    ) -> (TrackerView, Option<InvocationView>) {
        if !self.admits(session_id, tool, call) {
            (self, None)
        } else {
            let entered = self.track(session_id, trace_id);
            let session = entered.sessions[session_id];
            match entered.invocation(session_id, tool, call, id) {
                Some(invocation) => (
                    entered.emit(
                        seq![
                            call_event(
                                session.trace_id,
                                invocation,
                                resolved(
                                    session.variables,
                                    call.name,
                                    call.arguments,
                                )->Some_0.references,
                            ),
                        ],
                    ),
                    Some(invocation),
                ),
                None => (entered, None),
            }
        }
    }

    /// Whether untrusted results of an invocation are hidden from a trusted context.
    pub open spec fn hides(self, invocation: InvocationView) -> bool {
        self.config.auto_hide_untrusted && invocation.name != INSPECT_VARIABLE@
    }

    /// Labels the result of an invocation. `imposed` is a label that stands above what the
    /// policy says; the values of the result go under `references`.
    pub open spec fn finish(
        self,
        invocation: InvocationView,
        result: Option<ResultView>,
        imposed: Option<ContentLabelView>,
        references: Seq<Seq<char>>,
    ) -> (TrackerView, Option<ResultView>) {
        if invocation.blocked || !self.sessions.contains_key(invocation.session_id) {
            (self, None)
        } else {
            let conclusion = concluded(
                self.sessions[invocation.session_id],
                invocation,
                self.hides(invocation),
                result,
                imposed,
                references,
            );
            let after = TrackerView {
                sessions: self.sessions.insert(invocation.session_id, conclusion.session),
                ..self
            };
            (after.emit(conclusion.events), conclusion.output)
        }
    }

    /// Labels what a quarantined model answered: untrusted, and as confidential as what it was
    /// given.
    pub open spec fn finish_quarantine(
        self,
        invocation: InvocationView,
        result: Option<ResultView>,
        references: Seq<Seq<char>>,
    ) -> (TrackerView, Option<ResultView>) {
        self.finish(
            invocation,
            result,
            Some(ContentLabelView::untrusted(invocation.label.confidentiality)),
            references,
        )
    }

    /// Shows a hidden variable, under the label of the call that asks for it.
    pub open spec fn inspect(
        self,
        invocation: InvocationView,
        references: Seq<Seq<char>>,
    ) -> (TrackerView, Option<ResultView>) {
        match invocation.inspection() {
            Some(shown) => self.finish(
                invocation,
                Some(shown),
                Some(invocation.label),
                references,
            ),
            None => (self, None),
        }
    }
}

/// What is demanded of every session.
spec fn sound_session() -> spec_fn(Session) -> bool {
    |session: Session| session.wf()
}

impl LabelTracker {
    /// The tables list no key twice, and the bounds are kept.
    pub closed spec fn wf(&self) -> bool {
        &&& self.config.wf()
        &&& self.sessions.wf()
        &&& self.sessions.every(sound_session())
        &&& self@.bounded()
    }

    /// A tracker is always within its bounds.
    pub proof fn lemma_wf(&self)
        requires
            self.wf(),
        ensures
            self@.bounded(),
    {
    }

    /// A tracker of no session.
    pub fn new(config: SecureAgentConfig) -> (tracker: Self)
        requires
            config.wf(),
        ensures
            tracker.wf(),
            tracker@ == TrackerView::empty(config@),
    {
        let tracker = LabelTracker {
            config,
            sessions: Table::new(),
            pending: Vec::new(),
            log_failed: false,
            warned: false,
        };
        assert(tracker@ =~= TrackerView::empty(config@));
        tracker
    }

    /// The label of a session.
    pub fn context_label(&self, session_id: &str) -> (label: ContentLabel)
        requires
            self.wf(),
        ensures
            label@ == self@.context_label(session_id@),
    {
        match self.sessions.get(&session_id.to_owned()) {
            Some(session) => session.label.clone(),
            None => self.config.initial_label.clone(),
        }
    }

    /// Whether an event could not be written.
    pub fn log_failed(&self) -> (failed: bool)
        ensures
            failed == self@.log_failed,
    {
        self.log_failed
    }

    /// Hands over the events that are to be written, oldest first.
    pub fn take_pending(&mut self) -> (events: Vec<Json>)
        requires
            old(self).wf(),
        ensures
            final(self).wf(),
            views(events@) == old(self)@.pending,
            final(self)@ == (TrackerView { pending: Seq::empty(), ..old(self)@ }),
    {
        let mut events: Vec<Json> = Vec::new();
        core::mem::swap(&mut events, &mut self.pending);
        assert(self@ =~= (TrackerView { pending: Seq::empty(), ..old(self)@ }));
        events
    }

    /// Takes out the line that is to be written next; none where nothing is left to write.
    pub fn next_line(&mut self) -> (line: Option<Vec<u8>>)
        requires
            old(self).wf(),
        ensures
            final(self).wf(),
            option_view(line) == old(self)@.next_line(),
            final(self)@ == old(self)@.taken(),
    {
        if self.pending.len() == 0 {
            return None;
        }
        let event = self.pending.remove(0);
        assert(self@ =~= old(self)@.taken());
        Some(event.line())
    }

    /// Notes whether the line that was taken out could be written. Once one could not, nothing
    /// is written any more.
    pub fn note_written(&mut self, written: bool)
        requires
            old(self).wf(),
        ensures
            final(self).wf(),
            final(self)@ == old(self)@.noted(written),
    {
        if !written {
            self.log_failed = true;
            self.pending = Vec::new();
        }
        assert(self@ =~= old(self)@.noted(written));
    }

    /// Whether a failure to write is to be reported: once, when it is first seen.
    pub fn warn_if_failed(&mut self) -> (warn: bool)
        requires
            old(self).wf(),
        ensures
            final(self).wf(),
            warn == (old(self)@.log_failed && !old(self)@.warned),
            final(self)@ == (TrackerView { warned: old(self)@.warned || warn, ..old(self)@ }),
    {
        let warn = self.log_failed && !self.warned;
        if warn {
            self.warned = true;
        }
        assert(self@ =~= (TrackerView { warned: old(self)@.warned || warn, ..old(self)@ }));
        warn
    }

    /// Checks a call before it is dispatched, with the names that it gets in events given.
    pub fn begin_as(
        &mut self,
        session_id: &str,
        tool: &Tool,
        call: &CallToolRequestParams,
        trace_id: String,
        id: String,
    ) -> (result: Result<ToolInvocation, SecurityError>)
        requires
            old(self).wf(),
        ensures
            final(self).wf(),
            fails_plainly(result),
            (final(self)@, outcome(result)) == old(self)@.begin(
                session_id@,
                tool@,
                call@,
                trace_id@,
                id@,
            ),
    {
        if !same_text(tool.name.as_str(), call.name.as_str()) {
            return Err(security_error());
        }
        let key = session_id.to_owned();
        let known = self.sessions.contains_key(&key);
        if !known && self.sessions.len() >= MAX_SESSIONS {
            return Err(security_error());
        }
        let ghost entered = self@.track(session_id@, trace_id@);
        if !known {
            let session = Session::fresh(trace_id, self.config.initial_label.clone());
            assert(sound_session()(session));
            self.sessions.insert(key, session);
            proof {
                assert(self.sessions.every(sound_session()));
                assert(self@ =~= entered);
                assert(self@.sessions.dom() =~= old(self)@.sessions.dom().insert(session_id@));
            }
        }
        let key = session_id.to_owned();
        let session = match self.sessions.get(&key) {
            Some(session) => session,
            None => return Err(security_error()),
        };
        assert(sound_session()(*session));
        let no_arguments: Entries = Vec::new();
        assert(entries_view(no_arguments@) =~= Seq::empty());
        let arguments = match &call.arguments {
            Some(arguments) => arguments,
            None => &no_arguments,
        };
        let resolution = match resolve_call(&session.variables, call.name.as_str(), arguments) {
            Some(resolution) => resolution,
            None => return Err(security_error()),
        };
        proof {
            resolved_references_are_known(session.variables@, call@.name, call@.arguments);
        }
        let label = join_labels(&session.variables, &session.label, &resolution.references);
        let mut policy = self.config.policy(tool);
        let internal = same_text(call.name.as_str(), INSPECT_VARIABLE) || same_text(
            call.name.as_str(),
            QUARANTINED_LLM,
        );
        if internal {
            policy.accepts_untrusted = true;
            policy.max_allowed_confidentiality = None;
            policy.trust_result_labels = false;
        }
        let allowed = !policy.integrity_violation(&label) && !policy.confidentiality_violation(
            &label,
        );
        let invocation = ToolInvocation {
            id,
            session_id: key,
            name: call.name.clone(),
            arguments: resolution.arguments,
            label,
            policy,
            variables: resolution.variables,
            blocked: !allowed && self.config.block_on_violation,
        };
        let event = make_call_event(&session.trace_id, &invocation, &resolution.references);
        proof {
            assert(Some(invocation@) == entered.invocation(session_id@, tool@, call@, id@));
        }
        if !self.log_failed {
            proof {
                lemma_views_push(self.pending@, event);
            }
            self.pending.push(event);
            assert(entered.pending + seq![event@] =~= entered.pending.push(event@));
        }
        assert(self@ =~= entered.emit(seq![event@]));
        Ok(invocation)
    }

    /// Checks a call before it is dispatched: looks up the variables in it, joins their labels
    /// with that of the session and holds the outcome against the tool's policy.
    pub fn begin(
        &mut self,
        session_id: &str,
        tool: &Tool,
        call: &CallToolRequestParams,
    ) -> (result: Result<ToolInvocation, SecurityError>)
        requires
            old(self).wf(),
        ensures
            final(self).wf(),
            fails_plainly(result),
            exists|trace_id: Seq<char>, id: Seq<char>|
                is_identifier(trace_id) && is_identifier(id) && (final(self)@, outcome(result))
                    == #[trigger] old(self)@.begin(session_id@, tool@, call@, trace_id, id),
    {
        let trace_id = fresh_identifier();
        let id = fresh_identifier();
        let ghost names = (trace_id@, id@);
        let result = self.begin_as(session_id, tool, call, trace_id, id);
        assert((self@, outcome(result)) == old(self)@.begin(
            session_id@,
            tool@,
            call@,
            names.0,
            names.1,
        ));
        result
    }

    /// Labels the result of an invocation, with the references of its values given.
    pub fn finish_labeled(
        &mut self,
        invocation: ToolInvocation,
        result: Result<CallToolResult, SecurityError>,
        override_label: Option<ContentLabel>,
        references: Vec<String>,
    ) -> (output: Result<CallToolResult, SecurityError>)
        requires
            old(self).wf(),
            references@.len() == part_count(settled(outcome(result))),
        ensures
            final(self).wf(),
            fails_plainly(output),
            (final(self)@, outcome(output)) == old(self)@.finish(
                invocation@,
                outcome(result),
                option_view(override_label),
                views(references@),
            ),
    {
        if invocation.blocked {
            return Err(security_error());
        }
        let hiding = self.config.auto_hide_untrusted && !same_text(
            invocation.name.as_str(),
            INSPECT_VARIABLE,
        );
        let mut events: Vec<Json> = Vec::new();
        let ghost start = self@;
        let concluded_output = match self.sessions.get_mut(&invocation.session_id) {
            Some(session) => {
                assert(sound_session()(*session));
                let output = conclude(
                    session,
                    &invocation,
                    hiding,
                    result,
                    override_label,
                    &references,
                    &mut events,
                );
                assert(sound_session()(*session));
                output
            },
            None => return Err(security_error()),
        };
        let ghost conclusion = concluded(
            start.sessions[invocation@.session_id],
            invocation@,
            hiding,
            outcome(result),
            option_view(override_label),
            views(references@),
        );
        let ghost after = TrackerView {
            sessions: start.sessions.insert(invocation@.session_id, conclusion.session),
            ..start
        };
        proof {
            assert(views(events@) =~= conclusion.events);
            assert(self@ =~= after);
            assert(after.sessions.dom() =~= start.sessions.dom());
            assert(after.bounded());
        }
        if !self.log_failed {
            self.pending.append(&mut events);
            assert(views(self.pending@) =~= start.pending + conclusion.events);
        }
        assert(self@ =~= after.emit(conclusion.events));
        match concluded_output {
            Some(output) => Ok(output),
            None => Err(security_error()),
        }
    }

    /// Labels the result of an invocation: hides what is to be hidden, shows the rest with its
    /// labels and brings the label of the session up to date.
    pub fn finish(
        &mut self,
        invocation: ToolInvocation,
        result: Result<CallToolResult, SecurityError>,
    ) -> (output: Result<CallToolResult, SecurityError>)
        requires
            old(self).wf(),
        ensures
            final(self).wf(),
            fails_plainly(output),
            exists|references: Seq<Seq<char>>|
                are_references_for(references, outcome(result)) && (final(self)@, outcome(output))
                    == #[trigger] old(self)@.finish(
                    invocation@,
                    outcome(result),
                    None,
                    references,
                ),
    {
        let references = draw_references(&result);
        let ghost drawn = views(references@);
        let output = self.finish_labeled(invocation, result, None, references);
        assert(are_references_for(drawn, outcome(result)));
        assert((self@, outcome(output)) == old(self)@.finish(
            invocation@,
            outcome(result),
            None,
            drawn,
        ));
        output
    }

    /// Labels what a quarantined model answered: untrusted, and as confidential as what it was
    /// given.
    pub fn finish_quarantine(
        &mut self,
        invocation: ToolInvocation,
        result: Result<CallToolResult, SecurityError>,
    ) -> (output: Result<CallToolResult, SecurityError>)
        requires
            old(self).wf(),
        ensures
            final(self).wf(),
            fails_plainly(output),
            exists|references: Seq<Seq<char>>|
                are_references_for(references, outcome(result)) && (final(self)@, outcome(output))
                    == #[trigger] old(self)@.finish_quarantine(
                    invocation@,
                    outcome(result),
                    references,
                ),
    {
        let label = ContentLabel::untrusted(invocation.label.confidentiality);
        let references = draw_references(&result);
        let ghost drawn = views(references@);
        let output = self.finish_labeled(invocation, result, Some(label), references);
        assert(are_references_for(drawn, outcome(result)));
        assert((self@, outcome(output)) == old(self)@.finish_quarantine(
            invocation@,
            outcome(result),
            drawn,
        ));
        output
    }

    /// Shows a hidden variable. The session takes on the label of what it is shown.
    pub fn inspect(&mut self, invocation: ToolInvocation) -> (output: Result<
        CallToolResult,
        SecurityError,
    >)
        requires
            old(self).wf(),
        ensures
            final(self).wf(),
            fails_plainly(output),
            invocation@.inspection() is None ==> output is Err && final(self)@ == old(self)@,
            invocation@.inspection() is Some ==> exists|references: Seq<Seq<char>>|
                are_references_for(references, invocation@.inspection()) && (
                final(self)@,
                outcome(output),
            ) == #[trigger] old(self)@.inspect(invocation@, references),
    {
        if !same_text(invocation.name.as_str(), INSPECT_VARIABLE) || invocation.variables.len()
            == 0 {
            return Err(security_error());
        }
        assert(invocation@.variables[0] == invocation.variables@[0]@);
        let text = match &invocation.variables[0] {
            Json::Text(text) => text.clone(),
            payload => payload.text(),
        };
        let mut content: Vec<ContentItem> = Vec::new();
        content.push(ContentItem::text(text));
        assert(views(content@) =~= seq![text_item(text@)]);
        let result: Result<CallToolResult, SecurityError> = Ok(CallToolResult::success(content));
        let label = invocation.label.clone();
        let references = draw_references(&result);
        let ghost drawn = views(references@);
        let output = self.finish_labeled(invocation, result, Some(label), references);
        assert(are_references_for(drawn, outcome(result)));
        assert((self@, outcome(output)) == old(self)@.inspect(invocation@, drawn));
        output
    }
}

} // verus!
