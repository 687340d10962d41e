//! Turning the buttons held in one report into key presses and releases.
use vstd::prelude::*;

use crate::bindings::{bound_key, ButtonBindings};
use crate::buttons::string_views;
use crate::key_binding::{key_binding_of, parse_key_binding, KeyBinding};

verus! {

/// Whether a key goes down or comes up.
#[derive(Clone, Copy, Debug, PartialEq, Eq, Structural)]
pub enum KeyDirection {
    Press,
    Release,
}

/// A key to press or release on behalf of a button.
#[derive(Debug)]
pub struct KeyEvent {
    /// The label of the button that caused the event.
    pub button: String,
    pub key: KeyBinding,
    pub direction: KeyDirection,
}

/// An event as plain values: (button label, key, direction).
pub type EventView = (Seq<char>, KeyBinding, KeyDirection);

pub open spec fn event_views(events: Seq<KeyEvent>) -> Seq<EventView> {
    events.map_values(|e: KeyEvent| (e.button@, e.key, e.direction))
}

/// The distinct elements of `s`, each where it first occurs.
pub open spec fn dedup(s: Seq<Seq<char>>) -> Seq<Seq<char>>
    decreases s.len(),
{
    if s.len() == 0 {
        Seq::empty()
    } else {
        let rest = dedup(s.drop_last());
        if s.drop_last().contains(s.last()) {
            rest
        } else {
            rest.push(s.last())
        }
    }
}

/// One event in direction `dir` for each distinct button of `buttons` (in order of
/// first occurrence) that is not among `others` and is bound to a key.
pub open spec fn transition_events(
    buttons: Seq<Seq<char>>,
    others: Seq<Seq<char>>,
    bindings: Map<Seq<char>, Seq<char>>,
    dir: KeyDirection,
) -> Seq<EventView>
    decreases buttons.len(),
{
    if buttons.len() == 0 {
        Seq::empty()
    } else {
        let rest = transition_events(buttons.drop_last(), others, bindings, dir);
        let b = buttons.last();
        if !buttons.drop_last().contains(b) && !others.contains(b) && bound_key(
            bindings,
            b,
        ) is Some {
            rest.push((b, bound_key(bindings, b)->0, dir))
        } else {
            rest
        }
    }
}

/// The events for going from the buttons held before (`previous`) to those held
/// now (`current`): presses for the buttons newly held, then releases for the
/// buttons no longer held.
pub open spec fn key_events(
    current: Seq<Seq<char>>,
    previous: Seq<Seq<char>>,
    bindings: Map<Seq<char>, Seq<char>>,
) -> Seq<EventView> {
    transition_events(current, previous, bindings, KeyDirection::Press) + transition_events(
        previous,
        current,
        bindings,
        KeyDirection::Release,
    )
}

/// Whether one of the first `end` strings of `v` consists of the characters of `s`.
fn contains_text(v: &Vec<String>, end: usize, s: &str) -> (r: bool)
    requires
        end <= v@.len(),
    ensures
        r == string_views(v@).take(end as int).contains(s@),
{
    let ghost views = string_views(v@).take(end as int);
    let mut i: usize = 0;
    while i < end
        invariant
            end <= v@.len(),
            i <= end,
            views == string_views(v@).take(end as int),
            forall|j: int| 0 <= j < i ==> v@[j]@ != s@,
        decreases end - i,
    {
        if crate::bindings::same_text(v[i].as_str(), s) {
            assert(views[i as int] == s@);
            return true;
        }
        i = i + 1;
    }
    assert forall|j: int| 0 <= j < views.len() implies views[j] != s@ by {
        assert(views[j] == v@[j]@);
    }
    false
}

fn bound_key_of(bindings: &ButtonBindings, button: &str) -> (r: Option<KeyBinding>)
    ensures
        r == bound_key(bindings@, button@),
{
    match bindings.get(button) {
        Some(name) => parse_key_binding(name.as_str()),
        None => None,
    }
}

/// Appends the events in direction `dir` for the distinct buttons of `buttons`
/// that are not among `others` to `events`, and the distinct buttons of `buttons`
/// to `kept`.
fn transitions(
    buttons: &Vec<String>,
    others: &Vec<String>,
    bindings: &ButtonBindings,
    dir: KeyDirection,
    events: &mut Vec<KeyEvent>,
    kept: &mut Vec<String>,
)
    ensures
        event_views(final(events)@) == event_views(old(events)@) + transition_events(
            string_views(buttons@),
            string_views(others@),
            bindings@,
            dir,
        ),
        string_views(final(kept)@) == string_views(old(kept)@) + dedup(string_views(buttons@)),
{
    let ghost bs = string_views(buttons@);
    let ghost os = string_views(others@);
    let ghost ev0 = event_views(events@);
    let ghost kept0 = string_views(kept@);
    let n = buttons.len();
    let mut i: usize = 0;
    while i < n
        invariant
            n == buttons@.len(),
            bs == string_views(buttons@),
            os == string_views(others@),
            i <= n,
            event_views(events@) == ev0 + transition_events(bs.take(i as int), os, bindings@, dir),
            string_views(kept@) == kept0 + dedup(bs.take(i as int)),
        decreases n - i,
    {
        let b = &buttons[i];
        let ghost before = bs.take(i as int);
        let ghost upto = bs.take(i + 1);
        assert(upto.drop_last() =~= before);
        assert(upto.last() == b@);
        let seen = contains_text(buttons, i, b.as_str());
        let ghost ev_before = event_views(events@);
        let ghost kept_before = string_views(kept@);
        if !seen {
            let elsewhere = contains_text(others, others.len(), b.as_str());
            assert(string_views(others@).take(others@.len() as int) =~= os);
            if !elsewhere {
                match bound_key_of(bindings, b.as_str()) {
                    Some(key) => {
                        events.push(KeyEvent { button: b.clone(), key, direction: dir });
                        assert(event_views(events@) =~= ev_before.push((b@, key, dir)));
                    },
                    None => {},
                }
            }
            kept.push(b.clone());
            assert(string_views(kept@) =~= kept_before.push(b@));
        }
        i = i + 1;
        assert(event_views(events@) =~= ev0 + transition_events(upto, os, bindings@, dir));
        assert(string_views(kept@) =~= kept0 + dedup(upto));
    }
    assert(bs.take(n as int) =~= bs);
}

/// The key presses and releases that bring the keyboard from the buttons held
/// before (`prev_buttons`) to those held now (`current_buttons`), after which
/// `prev_buttons` holds the buttons held now. Without a keyboard to drive nothing
/// happens and `prev_buttons` stays as it was.
pub fn sync_keyboard_bindings(
    current_buttons: &Vec<String>,
    prev_buttons: &mut Vec<String>,
    button_bindings: &ButtonBindings,
    keyboard_available: bool,
) -> (events: Vec<KeyEvent>)
    ensures
        !keyboard_available ==> events@.len() == 0 && final(prev_buttons)@ == old(prev_buttons)@,
        keyboard_available ==> event_views(events@) == key_events(
            string_views(current_buttons@),
            string_views(old(prev_buttons)@),
            button_bindings@,
        ),
        keyboard_available ==> string_views(final(prev_buttons)@) == dedup(
            string_views(current_buttons@),
        ),
{
    let mut events: Vec<KeyEvent> = Vec::new();
    if !keyboard_available {
        return events;
    }
    let mut held_now: Vec<String> = Vec::new();
    let mut held_before: Vec<String> = Vec::new();
    assert(event_views(events@) =~= Seq::<EventView>::empty());
    assert(string_views(held_now@) =~= Seq::<Seq<char>>::empty());
    transitions(
        current_buttons,
        prev_buttons,
        button_bindings,
        KeyDirection::Press,
        &mut events,
        &mut held_now,
    );
    transitions(
        prev_buttons,
        current_buttons,
        button_bindings,
        KeyDirection::Release,
        &mut events,
        &mut held_before,
    );
    assert(event_views(events@) =~= key_events(
        string_views(current_buttons@),
        string_views(prev_buttons@),
        button_bindings@,
    ));
    assert(string_views(held_now@) =~= dedup(string_views(current_buttons@)));
    *prev_buttons = held_now;
    events
}


proof fn lemma_push_contains<A>(s: Seq<A>, a: A, x: A)
    ensures
        s.push(a).contains(x) <==> (s.contains(x) || x == a),
{
    if s.contains(x) {
        let k = choose|k: int| 0 <= k < s.len() && s[k] == x;
        assert(s.push(a)[k] == x);
    }
    if x == a {
        assert(s.push(a)[s.len() as int] == x);
    }
    if s.push(a).contains(x) {
        let k = choose|k: int| 0 <= k < s.push(a).len() && s.push(a)[k] == x;
        if k < s.len() {
            assert(s[k] == x);
        }
    }
}

proof fn lemma_drop_last_contains<A>(s: Seq<A>, x: A)
    requires
        s.len() > 0,
    ensures
        s.contains(x) <==> (s.drop_last().contains(x) || x == s.last()),
{
    assert(s.drop_last().push(s.last()) =~= s);
    lemma_push_contains(s.drop_last(), s.last(), x);
}

/// `dedup` keeps exactly the elements of `s`, each once.
pub proof fn lemma_dedup(s: Seq<Seq<char>>)
    ensures
        forall|x: Seq<char>| dedup(s).contains(x) <==> s.contains(x),
        dedup(s).no_duplicates(),
    decreases s.len(),
{
    if s.len() > 0 {
        let r = s.drop_last();
        lemma_dedup(r);
        assert forall|x: Seq<char>| dedup(s).contains(x) <==> s.contains(x) by {
            lemma_drop_last_contains(s, x);
            if !r.contains(s.last()) {
                lemma_push_contains(dedup(r), s.last(), x);
            }
        }
        if !r.contains(s.last()) {
            let d = dedup(r).push(s.last());
            assert forall|i: int, j: int| 0 <= i < d.len() && 0 <= j < d.len() && i != j implies d[i]
                != d[j] by {
                if i < dedup(r).len() && j < dedup(r).len() {
                } else if i < dedup(r).len() {
                    assert(dedup(r).contains(d[i]));
                } else {
                    assert(dedup(r).contains(d[j]));
                }
            }
        }
    }
}

/// What `transition_events` holds: exactly one event for each button of `buttons`
/// that is not among `others` and is bound to a key, with that key and `dir`.
pub proof fn lemma_transition_events(
    buttons: Seq<Seq<char>>,
    others: Seq<Seq<char>>,
    bindings: Map<Seq<char>, Seq<char>>,
    dir: KeyDirection,
)
    ensures
        forall|e: EventView|
            transition_events(buttons, others, bindings, dir).contains(e) <==> {
                &&& buttons.contains(e.0)
                &&& !others.contains(e.0)
                &&& bound_key(bindings, e.0) == Some(e.1)
                &&& e.2 == dir
            },
        forall|i: int, j: int|
            0 <= i < j < transition_events(buttons, others, bindings, dir).len() ==> (#[trigger] transition_events(
                buttons,
                others,
                bindings,
                dir,
            )[i]).0 != (#[trigger] transition_events(buttons, others, bindings, dir)[j]).0,
    decreases buttons.len(),
{
    if buttons.len() > 0 {
        let r = buttons.drop_last();
        let b = buttons.last();
        lemma_transition_events(r, others, bindings, dir);
        let rest = transition_events(r, others, bindings, dir);
        let all = transition_events(buttons, others, bindings, dir);
        assert forall|e: EventView| all.contains(e) <==> {
            &&& buttons.contains(e.0)
            &&& !others.contains(e.0)
            &&& bound_key(bindings, e.0) == Some(e.1)
            &&& e.2 == dir
        } by {
            lemma_drop_last_contains(buttons, e.0);
            if !r.contains(b) && !others.contains(b) && bound_key(bindings, b) is Some {
                lemma_push_contains(rest, (b, bound_key(bindings, b)->0, dir), e);
            }
        }
        assert forall|i: int, j: int| 0 <= i < j < all.len() implies (#[trigger] all[i]).0 != (
        #[trigger] all[j]).0 by {
            if j < rest.len() {
                assert(all[i] == rest[i] && all[j] == rest[j]);
            } else {
                assert(all[i] == rest[i]);
                assert(rest.contains(rest[i]));
            }
        }
    }
}

/// What a synchronisation sends: a press of key `k` for button `b` exactly when `b`
/// is held now, was not held before and has a configured key name that denotes
/// `k`; a release exactly when `b` was held before, is not held now and has a
/// configured key name that denotes `k`; and no button gets
/// two events in the same direction.
pub proof fn lemma_key_events(
    current: Seq<Seq<char>>,
    previous: Seq<Seq<char>>,
    bindings: Map<Seq<char>, Seq<char>>,
)
    ensures
        forall|b: Seq<char>, k: KeyBinding|
            key_events(current, previous, bindings).contains((b, k, KeyDirection::Press)) <==> (
            current.contains(b) && !previous.contains(b) && bindings.contains_key(b)
                && key_binding_of(bindings[b]) == Some(k)),
        forall|b: Seq<char>, k: KeyBinding|
            key_events(current, previous, bindings).contains((b, k, KeyDirection::Release)) <==> (
            previous.contains(b) && !current.contains(b) && bindings.contains_key(b)
                && key_binding_of(bindings[b]) == Some(k)),
        forall|i: int, j: int|
            0 <= i < j < key_events(current, previous, bindings).len() && (#[trigger] key_events(
                current,
                previous,
                bindings,
            )[i]).2 == (#[trigger] key_events(current, previous, bindings)[j]).2 ==> key_events(
                current,
                previous,
                bindings,
            )[i].0 != key_events(current, previous, bindings)[j].0,
{
    let p = transition_events(current, previous, bindings, KeyDirection::Press);
    let r = transition_events(previous, current, bindings, KeyDirection::Release);
    lemma_transition_events(current, previous, bindings, KeyDirection::Press);
    lemma_transition_events(previous, current, bindings, KeyDirection::Release);
    let all = key_events(current, previous, bindings);
    assert forall|e: EventView| all.contains(e) <==> p.contains(e) || r.contains(e) by {
        if all.contains(e) {
            let k = choose|k: int| 0 <= k < all.len() && all[k] == e;
            if k < p.len() {
                assert(p[k] == e);
            } else {
                assert(r[k - p.len()] == e);
            }
        }
        if p.contains(e) {
            let k = choose|k: int| 0 <= k < p.len() && p[k] == e;
            assert(all[k] == e);
        }
        if r.contains(e) {
            let k = choose|k: int| 0 <= k < r.len() && r[k] == e;
            assert(all[k + p.len()] == e);
        }
    }
    assert forall|i: int, j: int|
        0 <= i < j < all.len() && (#[trigger] all[i]).2 == (#[trigger] all[j]).2 implies all[i].0
        != all[j].0 by {
        if j < p.len() {
            assert(all[i] == p[i] && all[j] == p[j]);
        } else if i >= p.len() {
            assert(all[i] == r[i - p.len()] && all[j] == r[j - p.len()]);
        } else {
            assert(all[i] == p[i] && all[j] == r[j - p.len()]);
            assert(p.contains(p[i]));
            assert(r.contains(r[j - p.len()]));
        }
    }
}

/// Synchronising again with the buttons that are already held sends nothing.
pub proof fn lemma_sync_again_sends_nothing(
    current: Seq<Seq<char>>,
    bindings: Map<Seq<char>, Seq<char>>,
)
    ensures
        key_events(current, dedup(current), bindings).len() == 0,
{
    lemma_dedup(current);
    let all = key_events(current, dedup(current), bindings);
    lemma_key_events(current, dedup(current), bindings);
    if all.len() > 0 {
        let e = all[0];
        assert(all.contains(e));
        match e.2 {
            KeyDirection::Press => {
                assert(all.contains((e.0, e.1, KeyDirection::Press)));
            },
            KeyDirection::Release => {
                assert(all.contains((e.0, e.1, KeyDirection::Release)));
            },
        }
    }
}

/// A key pressed for a button is released, with the same key, by the first
/// synchronisation after which the button is no longer held (bindings unchanged).
pub proof fn lemma_press_then_release(
    held_first: Seq<Seq<char>>,
    held_before: Seq<Seq<char>>,
    held_next: Seq<Seq<char>>,
    bindings: Map<Seq<char>, Seq<char>>,
    b: Seq<char>,
    k: KeyBinding,
)
    requires
        key_events(held_first, held_before, bindings).contains((b, k, KeyDirection::Press)),
        !held_next.contains(b),
    ensures
        key_events(held_next, dedup(held_first), bindings).contains((b, k, KeyDirection::Release)),
{
    lemma_key_events(held_first, held_before, bindings);
    lemma_dedup(held_first);
    lemma_key_events(held_next, dedup(held_first), bindings);
}

} // verus!
