//! The table that maps button labels to the key names they are bound to.
use vstd::prelude::*;

use crate::key_binding::{key_binding_of, KeyBinding};

verus! {

/// The map that a list of (button, key name) pairs denotes: a later pair for the
/// same button replaces an earlier one.
pub open spec fn pairs_map(pairs: Seq<(String, String)>) -> Map<Seq<char>, Seq<char>>
    decreases pairs.len(),
{
    if pairs.len() == 0 {
        Map::empty()
    } else {
        pairs_map(pairs.drop_last()).insert(pairs.last().0@, pairs.last().1@)
    }
}

/// Button bindings: for each button label, the name of the key it presses.
pub struct ButtonBindings {
    pairs: Vec<(String, String)>,
}

impl View for ButtonBindings {
    type V = Map<Seq<char>, Seq<char>>;

    closed spec fn view(&self) -> Map<Seq<char>, Seq<char>> {
        pairs_map(self.pairs@)
    }
}

proof fn lemma_pairs_map_last_match(pairs: Seq<(String, String)>, i: int)
    requires
        0 <= i < pairs.len(),
        forall|j: int| i < j < pairs.len() ==> (#[trigger] pairs[j]).0@ != pairs[i].0@,
    ensures
        pairs_map(pairs).contains_key(pairs[i].0@),
        pairs_map(pairs)[pairs[i].0@] == pairs[i].1@,
    decreases pairs.len(),
{
    if i < pairs.len() - 1 {
        let p = pairs.drop_last();
        assert forall|j: int| i < j < p.len() implies (#[trigger] p[j]).0@ != p[i].0@ by {
            assert(p[j] == pairs[j]);
        }
        lemma_pairs_map_last_match(p, i);
        assert(pairs[pairs.len() - 1].0@ != pairs[i].0@);
    }
}

proof fn lemma_pairs_map_no_match(pairs: Seq<(String, String)>, key: Seq<char>)
    requires
        forall|j: int| 0 <= j < pairs.len() ==> (#[trigger] pairs[j]).0@ != key,
    ensures
        !pairs_map(pairs).contains_key(key),
    decreases pairs.len(),
{
    if pairs.len() > 0 {
        let p = pairs.drop_last();
        assert forall|j: int| 0 <= j < p.len() implies (#[trigger] p[j]).0@ != key by {
            assert(p[j] == pairs[j]);
        }
        lemma_pairs_map_no_match(p, key);
        assert(pairs[pairs.len() - 1].0@ != key);
    }
}

/// Whether `a` and `b` consist of the same characters.
pub fn same_text(a: &str, b: &str) -> (r: bool)
    ensures
        r == (a@ == b@),
{
    let n = a.unicode_len();
    if n != b.unicode_len() {
        return false;
    }
    let mut i: usize = 0;
    while i < n
        invariant
            n == a@.len(),
            n == b@.len(),
            i <= n,
            forall|j: int| 0 <= j < i ==> a@[j] == b@[j],
        decreases n - i,
    {
        if a.get_char(i) != b.get_char(i) {
            return false;
        }
        i = i + 1;
    }
    assert(a@ =~= b@);
    true
}

impl ButtonBindings {
    /// No bindings.
    pub fn new() -> (r: ButtonBindings)
        ensures
            r@ == Map::<Seq<char>, Seq<char>>::empty(),
    {
        ButtonBindings { pairs: Vec::new() }
    }

    /// Binds `button` to the key named `key`, replacing any earlier binding of it.
    pub fn insert(&mut self, button: String, key: String)
        ensures
            final(self)@ == old(self)@.insert(button@, key@),
    {
        self.pairs.push((button, key));
        assert(self.pairs@.drop_last() =~= old(self).pairs@);
    }

    /// The key name `button` is bound to, if any.
    pub fn get(&self, button: &str) -> (r: Option<&String>)
        ensures
            match r {
                Some(k) => self@.contains_key(button@) && k@ == self@[button@],
                None => !self@.contains_key(button@),
            },
    {
        let mut i = self.pairs.len();
        while i > 0
            invariant
                i <= self.pairs@.len(),
                forall|j: int| i <= j < self.pairs@.len() ==> (#[trigger] self.pairs@[j]).0@
                    != button@,
            decreases i,
        {
            i = i - 1;
            let (b, k) = &self.pairs[i];
            if same_text(b.as_str(), button) {
                proof {
                    lemma_pairs_map_last_match(self.pairs@, i as int);
                }
                return Some(k);
            }
        }
        proof {
            lemma_pairs_map_no_match(self.pairs@, button@);
        }
        None
    }

    /// The bindings as (button, key name) pairs: later pairs replace earlier ones
    /// for the same button.
    pub fn pairs(&self) -> (r: &Vec<(String, String)>)
        ensures
            pairs_map(r@) == self@,
    {
        &self.pairs
    }

}

/// The bindings of a fresh configuration.
pub open spec fn default_bindings_map() -> Map<Seq<char>, Seq<char>> {
    map![
        "A"@ => "Control"@,
        "B"@ => "Space"@,
        "1"@ => "S"@,
        "2"@ => "W"@,
        "+"@ => "Return"@,
        "-"@ => "Backspace"@,
        "HOME"@ => "Escape"@,
        "UP"@ => "LeftArrow"@,
        "DOWN"@ => "RightArrow"@,
        "LEFT"@ => "DownArrow"@,
        "RIGHT"@ => "UpArrow"@,
    ]
}

fn bind(bindings: &mut ButtonBindings, button: &str, key: &str)
    ensures
        final(bindings)@ == old(bindings)@.insert(button@, key@),
{
    bindings.insert(String::from_str(button), String::from_str(key));
}

/// The bindings of a fresh configuration: A to Control, B to Space, 1 to S, 2 to W,
/// + to Return, - to Backspace, HOME to Escape, and the direction pad turned a
/// quarter: UP to LeftArrow, DOWN to RightArrow, LEFT to DownArrow, RIGHT to UpArrow.
pub fn default_button_bindings() -> (r: ButtonBindings)
    ensures
        r@ == default_bindings_map(),
{
    let mut b = ButtonBindings::new();
    bind(&mut b, "A", "Control");
    bind(&mut b, "B", "Space");
    bind(&mut b, "1", "S");
    bind(&mut b, "2", "W");
    bind(&mut b, "+", "Return");
    bind(&mut b, "-", "Backspace");
    bind(&mut b, "HOME", "Escape");
    bind(&mut b, "UP", "LeftArrow");
    bind(&mut b, "DOWN", "RightArrow");
    bind(&mut b, "LEFT", "DownArrow");
    bind(&mut b, "RIGHT", "UpArrow");
    b
}


/// The key that `button` is bound to: the key that its bound name denotes, if it
/// has a binding and the name denotes a key.
pub open spec fn bound_key(bindings: Map<Seq<char>, Seq<char>>, button: Seq<char>) -> Option<
    KeyBinding,
> {
    if bindings.contains_key(button) {
        key_binding_of(bindings[button])
    } else {
        None
    }
}

proof fn lemma_default_bindings_entries()
    ensures
        default_bindings_map().contains_key("A"@),
        default_bindings_map()["A"@] == "Control"@,
        default_bindings_map().contains_key("B"@),
        default_bindings_map()["B"@] == "Space"@,
        default_bindings_map().contains_key("1"@),
        default_bindings_map()["1"@] == "S"@,
        default_bindings_map().contains_key("2"@),
        default_bindings_map()["2"@] == "W"@,
        default_bindings_map().contains_key("+"@),
        default_bindings_map()["+"@] == "Return"@,
        default_bindings_map().contains_key("-"@),
        default_bindings_map()["-"@] == "Backspace"@,
        default_bindings_map().contains_key("HOME"@),
        default_bindings_map()["HOME"@] == "Escape"@,
        default_bindings_map().contains_key("UP"@),
        default_bindings_map()["UP"@] == "LeftArrow"@,
        default_bindings_map().contains_key("DOWN"@),
        default_bindings_map()["DOWN"@] == "RightArrow"@,
        default_bindings_map().contains_key("LEFT"@),
        default_bindings_map()["LEFT"@] == "DownArrow"@,
        default_bindings_map().contains_key("RIGHT"@),
        default_bindings_map()["RIGHT"@] == "UpArrow"@,
{
    crate::buttons::lemma_label_chars();
    assert("A"@.len() == 1 && "A"@[0] == 'A');
    assert("B"@.len() == 1 && "B"@[0] == 'B');
    assert("1"@.len() == 1 && "1"@[0] == '1');
    assert("2"@.len() == 1 && "2"@[0] == '2');
    assert("+"@.len() == 1 && "+"@[0] == '+');
    assert("-"@.len() == 1 && "-"@[0] == '-');
    assert("HOME"@.len() == 4 && "HOME"@[0] == 'H');
    assert("UP"@.len() == 2 && "UP"@[0] == 'U');
    assert("DOWN"@.len() == 4 && "DOWN"@[0] == 'D');
    assert("LEFT"@.len() == 4 && "LEFT"@[0] == 'L');
    assert("RIGHT"@.len() == 5 && "RIGHT"@[0] == 'R');
}

proof fn lemma_default_key_names()
    ensures
        key_binding_of("Control"@) == Some(KeyBinding::Control),
        key_binding_of("Space"@) == Some(KeyBinding::Space),
        key_binding_of("S"@) == Some(KeyBinding::Unicode('s')),
        key_binding_of("W"@) == Some(KeyBinding::Unicode('w')),
        key_binding_of("Return"@) == Some(KeyBinding::Return),
        key_binding_of("Backspace"@) == Some(KeyBinding::Backspace),
        key_binding_of("Escape"@) == Some(KeyBinding::Escape),
        key_binding_of("LeftArrow"@) == Some(KeyBinding::LeftArrow),
        key_binding_of("RightArrow"@) == Some(KeyBinding::RightArrow),
        key_binding_of("DownArrow"@) == Some(KeyBinding::DownArrow),
        key_binding_of("UpArrow"@) == Some(KeyBinding::UpArrow),
{
    reveal_strlit("s");
    reveal_strlit("w");
    crate::key_binding::lemma_known_key_names();
    reveal_strlit("Control");
    crate::key_binding::lemma_key_of_plain_name("Control"@, "control"@);
    reveal_strlit("Space");
    crate::key_binding::lemma_key_of_plain_name("Space"@, "space"@);
    reveal_strlit("S");
    crate::key_binding::lemma_key_of_plain_name("S"@, "s"@);
    reveal_strlit("W");
    crate::key_binding::lemma_key_of_plain_name("W"@, "w"@);
    reveal_strlit("Return");
    crate::key_binding::lemma_key_of_plain_name("Return"@, "return"@);
    reveal_strlit("Backspace");
    crate::key_binding::lemma_key_of_plain_name("Backspace"@, "backspace"@);
    reveal_strlit("Escape");
    crate::key_binding::lemma_key_of_plain_name("Escape"@, "escape"@);
    reveal_strlit("LeftArrow");
    crate::key_binding::lemma_key_of_plain_name("LeftArrow"@, "leftarrow"@);
    reveal_strlit("RightArrow");
    crate::key_binding::lemma_key_of_plain_name("RightArrow"@, "rightarrow"@);
    reveal_strlit("DownArrow");
    crate::key_binding::lemma_key_of_plain_name("DownArrow"@, "downarrow"@);
    reveal_strlit("UpArrow");
    crate::key_binding::lemma_key_of_plain_name("UpArrow"@, "uparrow"@);
}

/// The fresh configuration binds every core button to a key: A to Control, B to
/// Space, 1 to the S key, 2 to the W key, + to Return, - to Backspace, HOME to
/// Escape, UP to LeftArrow, DOWN to RightArrow, LEFT to DownArrow, RIGHT to UpArrow.
pub proof fn lemma_default_bindings_keys()
    ensures
        bound_key(default_bindings_map(), "A"@) == Some(KeyBinding::Control),
        bound_key(default_bindings_map(), "B"@) == Some(KeyBinding::Space),
        bound_key(default_bindings_map(), "1"@) == Some(KeyBinding::Unicode('s')),
        bound_key(default_bindings_map(), "2"@) == Some(KeyBinding::Unicode('w')),
        bound_key(default_bindings_map(), "+"@) == Some(KeyBinding::Return),
        bound_key(default_bindings_map(), "-"@) == Some(KeyBinding::Backspace),
        bound_key(default_bindings_map(), "HOME"@) == Some(KeyBinding::Escape),
        bound_key(default_bindings_map(), "UP"@) == Some(KeyBinding::LeftArrow),
        bound_key(default_bindings_map(), "DOWN"@) == Some(KeyBinding::RightArrow),
        bound_key(default_bindings_map(), "LEFT"@) == Some(KeyBinding::DownArrow),
        bound_key(default_bindings_map(), "RIGHT"@) == Some(KeyBinding::UpArrow),
{
    lemma_default_bindings_entries();
    lemma_default_key_names();
}


/// A button presses the key that its own configured name denotes, whatever the
/// table holds for other buttons and whatever the default table says: with a
/// binding, the key its name parses to (or none if the name names no key);
/// without one, no key. Rebinding a button to a name binds it to that name's key.
pub proof fn lemma_bound_key_is_configured_key(
    bindings: Map<Seq<char>, Seq<char>>,
    button: Seq<char>,
    name: Seq<char>,
)
    ensures
        bindings.contains_key(button) ==> bound_key(bindings, button) == key_binding_of(
            bindings[button],
        ),
        !bindings.contains_key(button) ==> bound_key(bindings, button) is None,
        bound_key(bindings.insert(button, name), button) == key_binding_of(name),
{
}

} // verus!
