//! The navigation step the running program repeats: feed one input event
//! into the resolver and move between screens.  These are pure functions
//! of the navigation state; all I/O stays outside the library.

use vstd::prelude::*;

use crate::chord::{no_modifiers, only_modifier, Key, Modifier};
use crate::scenario::{advance_spec, Id, Scenario, ScenarioV};

verus! {

/// One input event, as the navigation step sees it: the reserved quit
/// keys, a plain or modified character, or anything else.
#[derive(Clone, Copy, PartialEq, Eq, Structural, Debug)]
pub enum Event {
    Esc,
    Char(char),
    Alt(char),
    Ctrl(char),
    Other,
}

/// The navigation state: the immutable scenario and the current screen id.
pub struct Model {
    pub scenario: Scenario,
    pub current: Id,
}

/// What is shown to the user: a screen's text.
pub enum UI<'a> {
    Content(&'a str),
}

/// The id the navigation moves to on one chord: the first matching
/// transition's target, or the current id unchanged when no transition
/// matches (wrong or unmapped keys are ordinary input, not errors).
pub open spec fn step_spec(s: ScenarioV, current: Seq<char>, key: Key) -> Seq<char> {
    match advance_spec(s.transitions, current, key) {
        Some(next) => next,
        None => current,
    }
}

/// The chord an input event stands for, if the event maps to one; the
/// reserved quit events and unrecognized events map to none.
pub open spec fn event_key_spec(event: Event) -> Option<Key> {
    match event {
        Event::Esc => None,
        Event::Char(c) => Some(Key { key: c, modifiers: no_modifiers() }),
        Event::Alt(c) => Some(Key { key: c, modifiers: only_modifier(Modifier::Alt) }),
        Event::Ctrl(c) => if c == 'c' {
            None
        } else {
            Some(Key { key: c, modifiers: only_modifier(Modifier::Ctrl) })
        },
        Event::Other => None,
    }
}

/// Builds the initial navigation state: the current id starts at the
/// scenario's designated first screen.
pub fn app(scenario: Scenario) -> (r: Model)
    ensures
        r.scenario == scenario,
        r.current@ == scenario.first@,
{
    let current = scenario.first.clone();
    Model { scenario, current }
}

fn advance(model: Model, key: Key) -> (r: Option<Model>)
    ensures
        r matches Some(m) && m.scenario == model.scenario && m.current@ == step_spec(
            model.scenario@,
            model.current@,
            key,
        ),
{
    let mut model = model;
    model.current = match model.scenario.advance(&model.current, &key) {
        Some(next) => next,
        None => model.current,
    };
    Some(model)
}

/// Applies one input event to the navigation state: the reserved quit
/// events (escape, control-c) end the run; a character event advances
/// through the resolver, staying put when no transition matches; any other
/// event leaves the state unchanged.
pub fn update(event: Event, model: Model) -> (r: Option<Model>)
    ensures
        match event_key_spec(event) {
            Some(key) => r matches Some(m) && m.scenario == model.scenario && m.current@
                == step_spec(model.scenario@, model.current@, key),
            None => if event is Esc || (event matches Event::Ctrl(c) && c == 'c') {
                r is None
            } else {
                r matches Some(m) && m == model
            },
        },
{
    match event {
        Event::Esc => None,
        Event::Char(c) => advance(model, Key::from(c)),
        Event::Alt(c) => advance(model, Key::with_modifier(c, Modifier::Alt)),
        Event::Ctrl(c) => {
            if c == 'c' {
                None
            } else {
                advance(model, Key::with_modifier(c, Modifier::Ctrl))
            }
        },
        Event::Other => Some(model),
    }
}

/// The text to render for the current state: the current screen's content,
/// or an empty screen when the current id is unknown.
pub fn view<'a>(model: &'a Model) -> (r: UI<'a>)
    requires
        model.scenario.wf(),
    ensures
        match r {
            UI::Content(t) => t@ == if model.scenario@.screens.contains_key(model.current@) {
                model.scenario@.screens[model.current@]
            } else {
                Seq::<char>::empty()
            },
        },
{
    let content = match model.scenario.get(&model.current) {
        Some(text) => text,
        None => "",
    };
    proof {
        reveal_strlit("");
        assert(""@ =~= Seq::<char>::empty());
    }
    UI::Content(content)
}

} // verus!
