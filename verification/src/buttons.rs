//! The core buttons of a Wiimote and the labels under which they are reported.
use vstd::prelude::*;

verus! {

/// Which of the reported core buttons are held down.
#[derive(Clone, Copy, Debug, PartialEq, Eq, Structural)]
pub struct ButtonState {
    pub a: bool,
    pub b: bool,
    pub one: bool,
    pub two: bool,
    pub plus: bool,
    pub minus: bool,
    pub home: bool,
    pub up: bool,
    pub down: bool,
    pub left: bool,
    pub right: bool,
}

/// The labels of the core buttons, in the order in which they are reported.
pub open spec fn button_labels() -> Seq<Seq<char>> {
    seq![
        "A"@,
        "B"@,
        "1"@,
        "2"@,
        "+"@,
        "-"@,
        "HOME"@,
        "UP"@,
        "DOWN"@,
        "LEFT"@,
        "RIGHT"@,
    ]
}

/// Whether each core button is held, in the order of `button_labels`.
pub open spec fn button_flags(state: ButtonState) -> Seq<bool> {
    seq![
        state.a,
        state.b,
        state.one,
        state.two,
        state.plus,
        state.minus,
        state.home,
        state.up,
        state.down,
        state.left,
        state.right,
    ]
}

/// The labels of the first `n` buttons (in reporting order) that are held.
pub open spec fn held_labels_among(state: ButtonState, n: nat) -> Seq<Seq<char>>
    decreases n,
{
    if n == 0 {
        Seq::empty()
    } else {
        let rest = held_labels_among(state, (n - 1) as nat);
        if button_flags(state)[n - 1] {
            rest.push(button_labels()[n - 1])
        } else {
            rest
        }
    }
}

/// The labels of the held buttons, in reporting order.
pub open spec fn held_labels(state: ButtonState) -> Seq<Seq<char>> {
    held_labels_among(state, 11)
}

/// The character sequences that a list of strings holds.
pub open spec fn string_views(v: Seq<String>) -> Seq<Seq<char>> {
    v.map_values(|s: String| s@)
}

fn push_label(out: &mut Vec<String>, held: bool, label: &str)
    ensures
        string_views(final(out)@) == if held {
            string_views(old(out)@).push(label@)
        } else {
            string_views(old(out)@)
        },
{
    if held {
        out.push(String::from_str(label));
        assert(string_views(out@) =~= string_views(old(out)@).push(label@));
    }
}

/// The labels of the held buttons, in the order A, B, 1, 2, +, -, HOME, UP, DOWN,
/// LEFT, RIGHT.
pub fn get_pressed_buttons(buttons: &ButtonState) -> (pressed: Vec<String>)
    ensures
        string_views(pressed@) == held_labels(*buttons),
{
    let mut pressed: Vec<String> = Vec::new();
    proof {
        reveal_with_fuel(held_labels_among, 12);
    }
    assert(string_views(pressed@) =~= Seq::<Seq<char>>::empty());
    push_label(&mut pressed, buttons.a, "A");
    push_label(&mut pressed, buttons.b, "B");
    push_label(&mut pressed, buttons.one, "1");
    push_label(&mut pressed, buttons.two, "2");
    push_label(&mut pressed, buttons.plus, "+");
    push_label(&mut pressed, buttons.minus, "-");
    push_label(&mut pressed, buttons.home, "HOME");
    push_label(&mut pressed, buttons.up, "UP");
    push_label(&mut pressed, buttons.down, "DOWN");
    push_label(&mut pressed, buttons.left, "LEFT");
    push_label(&mut pressed, buttons.right, "RIGHT");
    pressed
}


/// The characters of the button labels.
pub proof fn lemma_label_chars()
    ensures
        "A"@ =~= seq!['A'],
        "B"@ =~= seq!['B'],
        "1"@ =~= seq!['1'],
        "2"@ =~= seq!['2'],
        "+"@ =~= seq!['+'],
        "-"@ =~= seq!['-'],
        "HOME"@ =~= seq!['H', 'O', 'M', 'E'],
        "UP"@ =~= seq!['U', 'P'],
        "DOWN"@ =~= seq!['D', 'O', 'W', 'N'],
        "LEFT"@ =~= seq!['L', 'E', 'F', 'T'],
        "RIGHT"@ =~= seq!['R', 'I', 'G', 'H', 'T'],
{
    reveal_strlit("A");
    reveal_strlit("B");
    reveal_strlit("1");
    reveal_strlit("2");
    reveal_strlit("+");
    reveal_strlit("-");
    reveal_strlit("HOME");
    reveal_strlit("UP");
    reveal_strlit("DOWN");
    reveal_strlit("LEFT");
    reveal_strlit("RIGHT");
}


/// No two core buttons share a label.
pub proof fn lemma_labels_distinct()
    ensures
        button_labels().no_duplicates(),
        button_labels().len() == 11,
{
    lemma_label_chars();
    assert("A"@.len() == 1 && "A"@[0] == 'A');
    assert("B"@.len() == 1 && "B"@[0] == 'B');
    assert("1"@.len() == 1 && "1"@[0] == '1');
    assert("2"@.len() == 1 && "2"@[0] == '2');
    assert("+"@.len() == 1 && "+"@[0] == '+');
    assert("-"@.len() == 1 && "-"@[0] == '-');
    assert("HOME"@.len() == 4 && "HOME"@[0] == 'H');
    assert("UP"@.len() == 2 && "UP"@[0] == 'U');
    assert("DOWN"@.len() == 4 && "DOWN"@[0] == 'D');
    assert("LEFT"@.len() == 4 && "LEFT"@[0] == 'L');
    assert("RIGHT"@.len() == 5 && "RIGHT"@[0] == 'R');
}

proof fn lemma_held_labels_among(state: ButtonState, n: nat)
    requires
        n <= 11,
    ensures
        forall|x: Seq<char>|
            held_labels_among(state, n).contains(x) <==> exists|i: int|
                0 <= i < n && button_flags(state)[i] && #[trigger] button_labels()[i] == x,
        held_labels_among(state, n).no_duplicates(),
    decreases n,
{
    lemma_labels_distinct();
    if n > 0 {
        let m = (n - 1) as nat;
        lemma_held_labels_among(state, m);
        let rest = held_labels_among(state, m);
        let l = button_labels()[m as int];
        assert forall|x: Seq<char>|
            held_labels_among(state, n).contains(x) <==> exists|i: int|
                0 <= i < n && button_flags(state)[i] && #[trigger] button_labels()[i] == x by {
            if button_flags(state)[m as int] {
                if rest.push(l).contains(x) {
                    let k = choose|k: int| 0 <= k < rest.push(l).len() && rest.push(l)[k] == x;
                    if k < rest.len() {
                        assert(rest.contains(x));
                    } else {
                        assert(button_labels()[m as int] == x);
                    }
                }
                if exists|i: int| 0 <= i < n && button_flags(state)[i] && #[trigger] button_labels()[i] == x {
                    let i = choose|i: int| 0 <= i < n && button_flags(state)[i] && #[trigger] button_labels()[i] == x;
                    if i < m {
                        assert(rest.contains(x));
                        let k = choose|k: int| 0 <= k < rest.len() && rest[k] == x;
                        assert(rest.push(l)[k] == x);
                    } else {
                        assert(rest.push(l)[rest.len() as int] == x);
                    }
                }
            }
        }
        if button_flags(state)[m as int] {
            assert(!rest.contains(l)) by {
                if rest.contains(l) {
                    let i = choose|i: int| 0 <= i < m && button_flags(state)[i] && #[trigger] button_labels()[i] == l;
                    assert(button_labels()[i] == button_labels()[m as int]);
                }
            }
            let all = rest.push(l);
            assert forall|i: int, j: int| 0 <= i < all.len() && 0 <= j < all.len() && i != j implies all[i] != all[j] by {
                if i < rest.len() && j < rest.len() {
                } else if i < rest.len() {
                    assert(rest.contains(all[i]));
                } else {
                    assert(rest.contains(all[j]));
                }
            }
        }
    }
}

/// The reported labels are exactly those of the held buttons, each once.
pub proof fn lemma_held_labels(state: ButtonState)
    ensures
        held_labels(state).no_duplicates(),
        forall|i: int| 0 <= i < 11 ==> (held_labels(state).contains(#[trigger] button_labels()[i]) <==> button_flags(state)[i]),
        forall|x: Seq<char>| held_labels(state).contains(x) ==> button_labels().contains(x),
{
    lemma_held_labels_among(state, 11);
    lemma_labels_distinct();
    assert forall|i: int| 0 <= i < 11 implies (held_labels(state).contains(#[trigger] button_labels()[i]) <==> button_flags(state)[i]) by {
        if held_labels(state).contains(button_labels()[i]) {
            let j = choose|j: int| 0 <= j < 11 && button_flags(state)[j] && #[trigger] button_labels()[j] == button_labels()[i];
            assert(i == j);
        }
    }
    assert forall|x: Seq<char>| held_labels(state).contains(x) implies button_labels().contains(x) by {
        let j = choose|j: int| 0 <= j < 11 && button_flags(state)[j] && #[trigger] button_labels()[j] == x;
        assert(button_labels()[j] == x);
    }
}


/// Each button is reported under its own label: the label of a button is among
/// those reported exactly when that button is held.
pub proof fn lemma_each_button_has_its_label(state: ButtonState)
    ensures
        held_labels(state).contains("A"@) <==> state.a,
        held_labels(state).contains("B"@) <==> state.b,
        held_labels(state).contains("1"@) <==> state.one,
        held_labels(state).contains("2"@) <==> state.two,
        held_labels(state).contains("+"@) <==> state.plus,
        held_labels(state).contains("-"@) <==> state.minus,
        held_labels(state).contains("HOME"@) <==> state.home,
        held_labels(state).contains("UP"@) <==> state.up,
        held_labels(state).contains("DOWN"@) <==> state.down,
        held_labels(state).contains("LEFT"@) <==> state.left,
        held_labels(state).contains("RIGHT"@) <==> state.right,
        held_labels(state).no_duplicates(),
        state.a && state.b && state.one && state.two && state.plus && state.minus && state.home
            && state.up && state.down && state.left && state.right ==> held_labels(state) == seq![
            "A"@,
            "B"@,
            "1"@,
            "2"@,
            "+"@,
            "-"@,
            "HOME"@,
            "UP"@,
            "DOWN"@,
            "LEFT"@,
            "RIGHT"@,
        ],
{
    lemma_held_labels(state);
    reveal_with_fuel(held_labels_among, 12);
    assert(button_labels()[0] == "A"@ && button_flags(state)[0] == state.a);
    assert(button_labels()[1] == "B"@ && button_flags(state)[1] == state.b);
    assert(button_labels()[2] == "1"@ && button_flags(state)[2] == state.one);
    assert(button_labels()[3] == "2"@ && button_flags(state)[3] == state.two);
    assert(button_labels()[4] == "+"@ && button_flags(state)[4] == state.plus);
    assert(button_labels()[5] == "-"@ && button_flags(state)[5] == state.minus);
    assert(button_labels()[6] == "HOME"@ && button_flags(state)[6] == state.home);
    assert(button_labels()[7] == "UP"@ && button_flags(state)[7] == state.up);
    assert(button_labels()[8] == "DOWN"@ && button_flags(state)[8] == state.down);
    assert(button_labels()[9] == "LEFT"@ && button_flags(state)[9] == state.left);
    assert(button_labels()[10] == "RIGHT"@ && button_flags(state)[10] == state.right);
}

} // verus!
