//! The session: its state, and how each event changes it.

use crate::config::Config;
use crate::event::{Action, ActionView, AppEvent, Event, KeyCode, KeyEvent};
use crate::launch::{command_of_line, CommandLine};
use crate::ranking::{lemma_top_candidates, rank, top_candidates, MAX_RESULTS};
use crate::text::strings_view;
use vstd::prelude::*;

verus! {

/// The status line after a launch was asked for and nothing matched.
pub open spec fn no_match_message() -> Seq<char> {
    "no matching command found"@
}

/// The status line for an alias that the table does not bind.
pub open spec fn unbound_message(alias: Seq<char>) -> Seq<char> {
    "no command bound to '"@ + alias + "'"@
}

/// The status line after the command of `alias` was started.
pub open spec fn launched_message(alias: Seq<char>) -> Seq<char> {
    "Launched '"@ + alias + "'"@
}

/// The status line after the command of `alias` could not be started.
pub open spec fn failed_message(alias: Seq<char>, reason: Seq<char>) -> Seq<char> {
    "Failed to launch '"@ + alias + "': "@ + reason
}

/// The state of a session, as a renderer sees it, with the binding table
/// that the session was started with.
pub struct Session {
    /// Cleared once, by the request to quit; the loop ends when it is.
    pub running: bool,
    /// What the user has typed.
    pub query: Seq<char>,
    /// The best aliases for the query, best first.
    pub results: Seq<Seq<char>>,
    /// How the last launch went.
    pub status_message: Seq<char>,
    /// The aliases of the binding table, in its order.
    pub aliases: Seq<Seq<char>>,
    /// The command line of each alias.
    pub commands: Seq<Seq<char>>,
}

impl Session {
    /// The binding table is one: each alias has its command line, and no
    /// alias occurs twice.
    pub open spec fn table_wf(self) -> bool {
        &&& self.aliases.len() == self.commands.len()
        &&& self.aliases.len() <= usize::MAX
        &&& self.aliases.no_duplicates()
    }

    /// The table is one, and the results are those of the query.
    pub open spec fn wf(self) -> bool {
        &&& self.table_wf()
        &&& self.results == top_candidates(self.query, self.aliases)
    }

    /// The session as it starts: running, nothing typed, no status, the
    /// results those of the empty query.
    pub open spec fn start(aliases: Seq<Seq<char>>, commands: Seq<Seq<char>>) -> Session {
        Session {
            running: true,
            query: Seq::empty(),
            results: top_candidates(Seq::empty(), aliases),
            status_message: Seq::empty(),
            aliases,
            commands,
        }
    }

    /// The session with another query, and the results of that query.
    pub open spec fn with_query(self, query: Seq<char>) -> Session {
        Session { query, results: top_candidates(query, self.aliases), ..self }
    }

    /// The session after a character was typed.
    pub open spec fn typed(self, c: char) -> Session {
        self.with_query(self.query.push(c))
    }

    /// The session after the characters were typed, one after the other.
    pub open spec fn typed_all(self, chars: Seq<char>) -> Session
        decreases chars.len(),
    {
        if chars.len() == 0 {
            self
        } else {
            self.typed_all(chars.drop_last()).typed(chars.last())
        }
    }

    /// The session after the last character of the query was deleted, if it
    /// had one.
    pub open spec fn erased(self) -> Session {
        self.with_query(
            if self.query.len() > 0 {
                self.query.drop_last()
            } else {
                self.query
            },
        )
    }

    /// The session after a launch was dealt with: the status says how it
    /// went, and the query is empty again.
    pub open spec fn cleared_with(self, status: Seq<char>) -> Session {
        Session { status_message: status, ..self.with_query(Seq::empty()) }
    }

    /// The session after it was asked to quit.
    pub open spec fn stopped(self) -> Session {
        Session { running: false, ..self }
    }

    /// The command line that the table binds to the alias.
    pub open spec fn command_of(self, alias: Seq<char>) -> Seq<char> {
        self.commands[self.aliases.index_of(alias)]
    }

    /// The session after a key press: a character is typed, Backspace
    /// deletes one, and every other key leaves the state as it is.
    pub open spec fn after_key(self, key: KeyEvent) -> Session {
        if key.is_interrupt() {
            self
        } else {
            match key.code {
                KeyCode::Char(c) => self.typed(c),
                KeyCode::Backspace => self.erased(),
                _ => self,
            }
        }
    }

    /// The alias that ranks best against the query, if the table has any:
    /// in a well-formed session, the first of the results.
    pub open spec fn best_match(self) -> Option<Seq<char>> {
        let top = top_candidates(self.query, self.aliases);
        if top.len() == 0 {
            None
        } else {
            Some(top[0])
        }
    }

    /// The launch that the session makes when asked now: the best alias
    /// with its program and arguments, where the table binds that alias to
    /// a command line that names a program.
    pub open spec fn launch(self) -> Option<(Seq<char>, (Seq<char>, Seq<Seq<char>>))> {
        match self.best_match() {
            Some(alias) if self.aliases.contains(alias) => match command_of_line(
                self.command_of(alias),
            ) {
                Ok(command) => Some((alias, command)),
                Err(_) => None,
            },
            _ => None,
        }
    }

    /// The session after it was asked to launch. While a command is to be
    /// started it is unchanged. With no match, or a command line that names
    /// no program, the status line says so and the query is emptied. With a
    /// best match that the table does not bind, the status line says so.
    pub open spec fn after_launch_request(self) -> Session {
        match self.best_match() {
            None => self.cleared_with(no_match_message()),
            Some(alias) => if !self.aliases.contains(alias) {
                Session { status_message: unbound_message(alias), ..self }
            } else {
                match command_of_line(self.command_of(alias)) {
                    Ok(_) => self,
                    Err(e) => self.cleared_with(failed_message(alias, e.spec_message())),
                }
            },
        }
    }

    /// What the session asks for when asked to launch.
    pub open spec fn launch_action(self) -> ActionView {
        match self.launch() {
            Some((alias, command)) => ActionView::Spawn {
                alias,
                program: command.0,
                args: command.1,
            },
            None => ActionView::Nothing,
        }
    }

    /// The session after the command of `alias` was started, or could not
    /// be, for the reason given.
    pub open spec fn after_launch(self, alias: Seq<char>, outcome: Result<(), Seq<char>>) -> Session {
        self.cleared_with(
            match outcome {
                Ok(_) => launched_message(alias),
                Err(reason) => failed_message(alias, reason),
            },
        )
    }

    /// The session after an event.
    pub open spec fn after_event(self, event: Event) -> Session {
        match event {
            Event::Tick => self,
            Event::Key(key) => self.after_key(key),
            Event::App(AppEvent::Quit) => self.stopped(),
            Event::App(AppEvent::Launch) => self.after_launch_request(),
        }
    }

    /// What the session asks for after an event.
    pub open spec fn action_for(self, event: Event) -> ActionView {
        match event {
            Event::Tick => ActionView::Nothing,
            Event::Key(key) => match key.request() {
                Some(request) => ActionView::Send(request),
                None => ActionView::Nothing,
            },
            Event::App(AppEvent::Quit) => ActionView::CloseTerminal,
            Event::App(AppEvent::Launch) => self.launch_action(),
        }
    }
}

impl Session {
    /// At all times the results are at most `MAX_RESULTS` aliases of the
    /// table, none of them twice.
    pub proof fn lemma_results_bounded(self)
        requires
            self.wf(),
        ensures
            self.results.len() <= MAX_RESULTS,
            self.results.len() <= self.aliases.len(),
            self.results.no_duplicates(),
            forall|k: int|
                0 <= k < self.results.len() ==> self.aliases.contains(#[trigger] self.results[k]),
    {
        lemma_top_candidates(self.query, self.aliases);
    }

    /// The table binds the best match: a launch never meets an alias
    /// without a command line.
    pub proof fn lemma_best_match_is_bound(self)
        requires
            self.table_wf(),
        ensures
            match self.best_match() {
                Some(alias) => self.aliases.contains(alias),
                None => self.aliases.len() == 0,
            },
    {
        lemma_top_candidates(self.query, self.aliases);
    }

    /// Whatever the event, the session stays well formed, its binding table
    /// stays as it was loaded, and a session that has stopped stays stopped.
    pub proof fn lemma_event_keeps_session(self, event: Event)
        requires
            self.wf(),
        ensures
            self.after_event(event).wf(),
            self.after_event(event).results.len() <= MAX_RESULTS,
            self.after_event(event).aliases == self.aliases,
            self.after_event(event).commands == self.commands,
            !self.running ==> !self.after_event(event).running,
    {
        self.after_event(event).lemma_results_bounded();
    }

    /// After a launch was reported the session is well formed, with the
    /// table as it was loaded.
    pub proof fn lemma_launch_keeps_session(self, alias: Seq<char>, outcome: Result<(), Seq<char>>)
        requires
            self.wf(),
        ensures
            self.after_launch(alias, outcome).wf(),
            self.after_launch(alias, outcome).aliases == self.aliases,
            self.after_launch(alias, outcome).commands == self.commands,
            self.after_launch(alias, outcome).running == self.running,
    {
    }

    /// Typing characters adds them to the query, in their order, and leaves
    /// the results of the query that stands then.
    pub proof fn lemma_typed_all(self, chars: Seq<char>)
        requires
            self.wf(),
        ensures
            self.typed_all(chars) == self.with_query(self.query + chars),
            self.typed_all(chars).wf(),
        decreases chars.len(),
    {
        if chars.len() == 0 {
            assert(self.query + chars =~= self.query);
        } else {
            self.lemma_typed_all(chars.drop_last());
            assert((self.query + chars.drop_last()).push(chars.last()) =~= self.query + chars);
        }
    }

    /// The results follow from the query alone: two sessions over the same
    /// aliases, in each of which typing has led to the same query, show the
    /// same results, however the query was reached.
    pub proof fn lemma_results_follow_query(
        self,
        other: Session,
        typed: Seq<char>,
        other_typed: Seq<char>,
    )
        requires
            self.wf(),
            other.wf(),
            self.aliases == other.aliases,
            self.query + typed == other.query + other_typed,
        ensures
            self.typed_all(typed).results == other.typed_all(other_typed).results,
    {
        self.lemma_typed_all(typed);
        other.lemma_typed_all(other_typed);
    }

    /// Escape ends the session from any state: the key press queues the
    /// request to quit, and when that request is handled the session stops.
    pub proof fn lemma_escape_quits(self, key: KeyEvent)
        requires
            key.code == KeyCode::Esc,
        ensures
            self.action_for(Event::Key(key)) == ActionView::Send(AppEvent::Quit),
            self.after_event(Event::Key(key)) == self,
            !self.after_event(Event::App(AppEvent::Quit)).running,
    {
    }

    /// With an empty binding table a request to launch finds no match,
    /// whatever the query: the status line says so, the query is emptied,
    /// and nothing is started.
    pub proof fn lemma_launch_without_bindings(self)
        requires
            self.aliases.len() == 0,
        ensures
            self.after_event(Event::App(AppEvent::Launch)).status_message == no_match_message(),
            self.after_event(Event::App(AppEvent::Launch)).query == Seq::<char>::empty(),
            self.action_for(Event::App(AppEvent::Launch)) == ActionView::Nothing,
    {
        lemma_top_candidates(self.query, self.aliases);
    }

    /// Backspace on an empty query leaves the session as it is: the query
    /// stays empty, with the results of the empty query.
    pub proof fn lemma_backspace_on_empty_query(self, key: KeyEvent)
        requires
            self.wf(),
            self.query.len() == 0,
            key.code == KeyCode::Backspace,
        ensures
            self.after_event(Event::Key(key)) == self,
            self.action_for(Event::Key(key)) == ActionView::Nothing,
    {
    }
}

/// The session.
pub struct App {
    running: bool,
    query: String,
    results: Vec<String>,
    bindings: Config,
    status_message: String,
}

impl View for App {
    type V = Session;

    closed spec fn view(&self) -> Session {
        Session {
            running: self.running,
            query: self.query@,
            results: strings_view(self.results@),
            status_message: self.status_message@,
            aliases: self.bindings.spec_aliases(),
            commands: self.bindings.spec_commands(),
        }
    }
}

/// Calls `String::push`, which appends the character to the end of the
/// string.
#[verifier::external_body]
fn push_char(text: &mut String, c: char)
    ensures
        final(text)@ == old(text)@.push(c),
{
    text.push(c)
}

/// Calls `String::pop`, which removes the last character and returns it,
/// and returns `None` for an empty string.
#[verifier::external_body]
fn pop_char(text: &mut String) -> (last: Option<char>)
    ensures
        match last {
            Some(c) => old(text)@.len() > 0 && c == old(text)@.last() && final(text)@ == old(
                text,
            )@.drop_last(),
            None => old(text)@.len() == 0 && final(text)@ == old(text)@,
        },
{
    text.pop()
}

/// Writes the status line for a started command.
fn launched_text(alias: &str) -> (text: String)
    ensures
        text@ == launched_message(alias@),
{
    let mut text = String::from_str("Launched '");
    text.append(alias);
    text.append("'");
    text
}

/// Writes the status line for a command that could not be started.
fn failed_text(alias: &str, reason: &str) -> (text: String)
    ensures
        text@ == failed_message(alias@, reason@),
{
    let mut text = String::from_str("Failed to launch '");
    text.append(alias);
    text.append("': ");
    text.append(reason);
    text
}

/// Writes the status line for an alias without a command.
fn unbound_text(alias: &str) -> (text: String)
    ensures
        text@ == unbound_message(alias@),
{
    let mut text = String::from_str("no command bound to '");
    text.append(alias);
    text.append("'");
    text
}

impl App {
    /// The session is well formed: its view is.
    pub open spec fn wf(&self) -> bool {
        self@.wf()
    }

    /// Starts a session over the binding table.
    pub fn new(bindings: Config) -> (app: App)
        requires
            bindings.wf(),
        ensures
            app.wf(),
            app@ == Session::start(bindings.spec_aliases(), bindings.spec_commands()),
    {
        let mut app = App {
            running: true,
            query: String::new(),
            results: Vec::new(),
            bindings,
            status_message: String::new(),
        };
        app.update_results();
        app
    }

    /// Whether the session is still running.
    pub fn running(&self) -> (running: bool)
        ensures
            running == self@.running,
    {
        self.running
    }

    /// What the user has typed.
    pub fn query(&self) -> (query: &str)
        ensures
            query@ == self@.query,
    {
        self.query.as_str()
    }

    /// The best aliases for the query, best first.
    pub fn results(&self) -> (results: &Vec<String>)
        ensures
            strings_view(results@) == self@.results,
    {
        &self.results
    }

    /// How the last launch went.
    pub fn status_message(&self) -> (status: &str)
        ensures
            status@ == self@.status_message,
    {
        self.status_message.as_str()
    }

    /// The binding table.
    pub fn bindings(&self) -> (bindings: &Config)
        ensures
            bindings.spec_aliases() == self@.aliases,
            bindings.spec_commands() == self@.commands,
    {
        &self.bindings
    }

    /// Handles a key press: changes the query and the results with it, and
    /// returns the request that the key stands for, to be queued.
    pub fn handle_key_events(&mut self, key_event: KeyEvent) -> (request: Option<AppEvent>)
        requires
            old(self)@.table_wf(),
        ensures
            final(self)@ == old(self)@.after_key(key_event),
            old(self).wf() ==> final(self).wf(),
            request == key_event.request(),
    {
        if key_event.is_interrupt() {
            return Some(AppEvent::Quit);
        }
        match key_event.code {
            KeyCode::Esc => Some(AppEvent::Quit),
            KeyCode::Char(c) => {
                push_char(&mut self.query, c);
                self.update_results();
                None
            },
            KeyCode::Backspace => {
                pop_char(&mut self.query);
                self.update_results();
                None
            },
            KeyCode::Enter => Some(AppEvent::Launch),
            KeyCode::Other => None,
        }
    }

    /// Handles a tick of the timer: nothing changes.
    pub fn tick(&mut self)
        ensures
            final(self)@ == old(self)@,
    {
    }

    /// Ranks the aliases against the query anew.
    pub fn update_results(&mut self)
        requires
            old(self)@.table_wf(),
        ensures
            final(self).wf(),
            final(self)@ == old(self)@.with_query(old(self)@.query),
    {
        let matches = rank(self.query.as_str(), self.bindings.aliases());
        let mut results: Vec<String> = Vec::new();
        let mut k: usize = 0;
        while k < matches.len()
            invariant
                k <= matches.len(),
                results.len() == k,
                forall|m: int| 0 <= m < k ==> (#[trigger] results[m])@ == matches[m].0@,
            decreases matches.len() - k,
        {
            results.push(matches[k].0.clone());
            k += 1;
        }
        assert(strings_view(results@) =~= top_candidates(self@.query, self@.aliases));
        self.results = results;
    }

    /// Handles the request to launch. Where the best match has a command
    /// line that names a program, the session asks for that program to be
    /// started and waits for `launch_finished`; else it says why not in the
    /// status line.
    pub fn launch_closest(&mut self) -> (action: Action)
        requires
            old(self)@.table_wf(),
        ensures
            final(self)@ == old(self)@.after_launch_request(),
            old(self).wf() ==> final(self).wf(),
            action@ == old(self)@.launch_action(),
    {
        let matches = self.closest_bindings(self.query.as_str());
        if matches.len() == 0 {
            self.conclude(String::from_str("no matching command found"));
            return Action::Nothing;
        }
        assert(top_candidates(self@.query, self@.aliases)[0] == matches[0].0@);
        let alias: String = matches[0].0.clone();
        let parsed = match self.bindings.get_command(alias.as_str()) {
            Some(line) => CommandLine::parse(line.as_str()),
            None => {
                self.status_message = unbound_text(alias.as_str());
                return Action::Nothing;
            },
        };
        match parsed {
            Ok(command) => Action::Spawn { alias, command },
            Err(e) => {
                self.conclude(failed_text(alias.as_str(), e.message().as_str()));
                Action::Nothing
            },
        }
    }

    /// Takes note of how the launch of `alias` went: the status line says
    /// it, the query is emptied.
    pub fn launch_finished(&mut self, alias: &str, outcome: Result<(), String>)
        requires
            old(self)@.table_wf(),
        ensures
            final(self).wf(),
            final(self)@ == old(self)@.after_launch(
                alias@,
                match outcome {
                    Ok(_) => Ok(()),
                    Err(reason) => Err(reason@),
                },
            ),
    {
        let status = match outcome {
            Ok(_) => launched_text(alias),
            Err(reason) => failed_text(alias, reason.as_str()),
        };
        self.conclude(status);
    }

    /// Ends a launch: sets the status line and empties the query.
    fn conclude(&mut self, status: String)
        requires
            old(self)@.table_wf(),
        ensures
            final(self).wf(),
            final(self)@ == old(self)@.cleared_with(status@),
    {
        self.status_message = status;
        self.query = String::new();
        self.update_results();
    }

    /// Handles the request to quit: the session stops running and asks for
    /// the hosting session to be closed.
    pub fn quit(&mut self) -> (action: Action)
        ensures
            final(self)@ == old(self)@.stopped(),
            old(self).wf() ==> final(self).wf(),
            action@ == ActionView::CloseTerminal,
    {
        self.running = false;
        Action::CloseTerminal
    }

    /// Handles one event of the stream.
    pub fn handle_event(&mut self, event: Event) -> (action: Action)
        requires
            old(self)@.table_wf(),
        ensures
            final(self)@ == old(self)@.after_event(event),
            old(self).wf() ==> final(self).wf(),
            action@ == old(self)@.action_for(event),
    {
        match event {
            Event::Tick => {
                self.tick();
                Action::Nothing
            },
            Event::Key(key_event) => match self.handle_key_events(key_event) {
                Some(request) => Action::Send(request),
                None => Action::Nothing,
            },
            Event::App(AppEvent::Quit) => self.quit(),
            Event::App(AppEvent::Launch) => self.launch_closest(),
        }
    }

    /// The aliases that rank best against `input`, with their scores, best
    /// first.
    pub fn closest_bindings(&self, input: &str) -> (matches: Vec<(String, u64)>)
        ensures
            crate::ranking::matches_view(matches@) == crate::ranking::top_matches(
                input@,
                self@.aliases,
            ),
            matches.len() <= MAX_RESULTS,
            matches.len() <= self@.aliases.len(),
            forall|k: int, l: int| 0 <= k <= l < matches.len() ==> matches[k].1 >= matches[l].1,
    {
        rank(input, self.bindings.aliases())
    }
}

} // verus!
