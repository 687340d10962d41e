//! Key names written in the configuration, and the keyboard keys they name.
use vstd::prelude::*;

verus! {

/// A keyboard key that a Wiimote button can be bound to.
#[derive(Clone, Copy, Debug, PartialEq, Eq, Structural)]
pub enum KeyBinding {
    Space,
    Return,
    Escape,
    Backspace,
    Control,
    LeftArrow,
    RightArrow,
    UpArrow,
    DownArrow,
    /// A single ASCII letter or digit, as typed (letters in lower case).
    Unicode(char),
}

/// The characters that carry the Unicode `White_Space` property, which is what
/// `char::is_whitespace` (and so `str::trim`) tests.
pub open spec fn is_white_space(c: char) -> bool {
    ||| ('\u{9}' <= c && c <= '\u{d}')
    ||| c == ' '
    ||| c == '\u{85}'
    ||| c == '\u{a0}'
    ||| c == '\u{1680}'
    ||| ('\u{2000}' <= c && c <= '\u{200a}')
    ||| c == '\u{2028}'
    ||| c == '\u{2029}'
    ||| c == '\u{202f}'
    ||| c == '\u{205f}'
    ||| c == '\u{3000}'
}

/// `c` with an ASCII upper-case letter mapped to its lower-case letter.
pub open spec fn ascii_lowercase(c: char) -> char {
    if 'A' <= c && c <= 'Z' {
        ((c as u32) + 32) as char
    } else {
        c
    }
}

pub open spec fn is_ascii_alphanumeric(c: char) -> bool {
    ||| ('0' <= c && c <= '9')
    ||| ('A' <= c && c <= 'Z')
    ||| ('a' <= c && c <= 'z')
}

fn white_space(c: char) -> (b: bool)
    ensures
        b == is_white_space(c),
{
    ('\u{9}' <= c && c <= '\u{d}') || c == ' ' || c == '\u{85}' || c == '\u{a0}' || c
        == '\u{1680}' || ('\u{2000}' <= c && c <= '\u{200a}') || c == '\u{2028}' || c
        == '\u{2029}' || c == '\u{202f}' || c == '\u{205f}' || c == '\u{3000}'
}

fn to_ascii_lowercase(c: char) -> (r: char)
    ensures
        r == ascii_lowercase(c),
{
    if 'A' <= c && c <= 'Z' {
        let u: u8 = c as u8;
        (u + 32) as char
    } else {
        c
    }
}


/// `s` without its leading white space.
pub open spec fn trim_start(s: Seq<char>) -> Seq<char>
    decreases s.len(),
{
    if s.len() > 0 && is_white_space(s[0]) {
        trim_start(s.drop_first())
    } else {
        s
    }
}

/// `s` without its trailing white space.
pub open spec fn trim_end(s: Seq<char>) -> Seq<char>
    decreases s.len(),
{
    if s.len() > 0 && is_white_space(s.last()) {
        trim_end(s.drop_last())
    } else {
        s
    }
}

/// `s` without leading and trailing white space, as `str::trim` gives it.
pub open spec fn trim(s: Seq<char>) -> Seq<char> {
    trim_end(trim_start(s))
}

/// `s` with every ASCII upper-case letter lowered, as `str::to_ascii_lowercase` gives it.
pub open spec fn to_lowercase(s: Seq<char>) -> Seq<char> {
    s.map_values(|c: char| ascii_lowercase(c))
}

/// The form in which a key name is compared: trimmed, then lowered.
pub open spec fn normalize_key_name(s: Seq<char>) -> Seq<char> {
    to_lowercase(trim(s))
}

/// The key that a normalized name denotes, if any.
pub open spec fn key_of_normalized_name(n: Seq<char>) -> Option<KeyBinding> {
    if n == "space"@ {
        Some(KeyBinding::Space)
    } else if n == "return"@ || n == "enter"@ {
        Some(KeyBinding::Return)
    } else if n == "escape"@ || n == "esc"@ {
        Some(KeyBinding::Escape)
    } else if n == "backspace"@ {
        Some(KeyBinding::Backspace)
    } else if n == "control"@ || n == "ctrl"@ {
        Some(KeyBinding::Control)
    } else if n == "leftarrow"@ || n == "left"@ {
        Some(KeyBinding::LeftArrow)
    } else if n == "rightarrow"@ || n == "right"@ {
        Some(KeyBinding::RightArrow)
    } else if n == "uparrow"@ || n == "up"@ {
        Some(KeyBinding::UpArrow)
    } else if n == "downarrow"@ || n == "down"@ {
        Some(KeyBinding::DownArrow)
    } else if n.len() == 1 && is_ascii_alphanumeric(n[0]) {
        Some(KeyBinding::Unicode(n[0]))
    } else {
        None
    }
}

/// The key that a configured key name denotes, if any.
pub open spec fn key_binding_of(name: Seq<char>) -> Option<KeyBinding> {
    key_of_normalized_name(normalize_key_name(name))
}

/// Dropping a prefix of white space does not change what `trim_start` gives.
proof fn lemma_trim_start_skip(s: Seq<char>, k: int)
    requires
        0 <= k <= s.len(),
        forall|i: int| 0 <= i < k ==> is_white_space(#[trigger] s[i]),
    ensures
        trim_start(s) == trim_start(s.subrange(k, s.len() as int)),
    decreases k,
{
    if k == 0 {
        assert(s.subrange(0, s.len() as int) =~= s);
    } else {
        assert(is_white_space(s[0]));
        let t = s.drop_first();
        assert forall|i: int| 0 <= i < k - 1 implies is_white_space(#[trigger] t[i]) by {
            assert(t[i] == s[i + 1]);
        }
        lemma_trim_start_skip(t, k - 1);
        assert(t.subrange(k - 1, t.len() as int) =~= s.subrange(k, s.len() as int));
    }
}

/// Dropping a suffix of white space does not change what `trim_end` gives.
proof fn lemma_trim_end_skip(s: Seq<char>, k: int)
    requires
        0 <= k <= s.len(),
        forall|i: int| k <= i < s.len() ==> is_white_space(#[trigger] s[i]),
    ensures
        trim_end(s) == trim_end(s.subrange(0, k)),
    decreases s.len() - k,
{
    if k == s.len() {
        assert(s.subrange(0, k) =~= s);
    } else {
        assert(is_white_space(s.last()));
        let t = s.drop_last();
        assert forall|i: int| k <= i < t.len() implies is_white_space(#[trigger] t[i]) by {
            assert(t[i] == s[i]);
        }
        lemma_trim_end_skip(t, k);
        assert(t.subrange(0, k) =~= s.subrange(0, k));
    }
}

/// The characters of `value` from index `start` up to `end`, each lowered.
fn lowered_range(value: &str, start: usize, end: usize) -> (r: Vec<char>)
    requires
        start <= end <= value@.len(),
    ensures
        r@ == to_lowercase(value@.subrange(start as int, end as int)),
{
    let mut out: Vec<char> = Vec::new();
    let mut i = start;
    while i < end
        invariant
            start <= i <= end <= value@.len(),
            out@ =~= to_lowercase(value@.subrange(start as int, i as int)),
        decreases end - i,
    {
        let c = value.get_char(i);
        out.push(to_ascii_lowercase(c));
        i = i + 1;
        assert(to_lowercase(value@.subrange(start as int, i as int)) =~= to_lowercase(
            value@.subrange(start as int, (i - 1) as int),
        ).push(ascii_lowercase(c)));
    }
    out
}

/// The name trimmed of white space and lowered, as the characters it consists of.
pub fn normalized_key_name(value: &str) -> (r: Vec<char>)
    ensures
        r@ == normalize_key_name(value@),
{
    let n = value.unicode_len();
    let ghost s = value@;
    let mut start: usize = 0;
    while start < n && white_space(value.get_char(start))
        invariant
            n == s.len(),
            s == value@,
            start <= n,
            forall|i: int| 0 <= i < start ==> is_white_space(#[trigger] s[i]),
        decreases n - start,
    {
        start = start + 1;
    }
    proof {
        lemma_trim_start_skip(s, start as int);
        let t = s.subrange(start as int, n as int);
        if t.len() > 0 {
            assert(t[0] == s[start as int]);
        }
        assert(trim_start(t) == t);
    }
    let mut end: usize = n;
    while end > start && white_space(value.get_char(end - 1))
        invariant
            n == s.len(),
            s == value@,
            start <= end <= n,
            forall|i: int| end <= i < n ==> is_white_space(#[trigger] s[i]),
        decreases end - start,
    {
        end = end - 1;
    }
    proof {
        let t = s.subrange(start as int, n as int);
        let k = (end - start) as int;
        assert forall|i: int| k <= i < t.len() implies is_white_space(#[trigger] t[i]) by {
            assert(t[i] == s[start + i]);
        }
        lemma_trim_end_skip(t, k);
        let u = t.subrange(0, k);
        assert(u =~= s.subrange(start as int, end as int));
        if u.len() > 0 {
            assert(u.last() == s[end - 1]);
        }
        assert(trim_end(u) == u);
    }
    lowered_range(value, start, end)
}


/// Whether the characters `v` are those of `lit`.
fn chars_equal(v: &Vec<char>, lit: &str) -> (b: bool)
    ensures
        b == (v@ == lit@),
{
    let n = lit.unicode_len();
    if v.len() != n {
        return false;
    }
    let mut i: usize = 0;
    while i < n
        invariant
            n == lit@.len(),
            v@.len() == n,
            i <= n,
            forall|j: int| 0 <= j < i ==> v@[j] == lit@[j],
        decreases n - i,
    {
        if v[i] != lit.get_char(i) {
            return false;
        }
        i = i + 1;
    }
    assert(v@ =~= lit@);
    true
}

fn is_ascii_alphanumeric_char(c: char) -> (b: bool)
    ensures
        b == is_ascii_alphanumeric(c),
{
    ('0' <= c && c <= '9') || ('A' <= c && c <= 'Z') || ('a' <= c && c <= 'z')
}

/// The key that a configured key name denotes: the name is trimmed of white space
/// and compared without regard to ASCII case against the known key names; a name
/// of one ASCII letter or digit denotes that character (lowered). `None` for any
/// other name.
pub fn parse_key_binding(value: &str) -> (r: Option<KeyBinding>)
    ensures
        r == key_binding_of(value@),
{
    let n = normalized_key_name(value);
    if chars_equal(&n, "space") {
        Some(KeyBinding::Space)
    } else if chars_equal(&n, "return") || chars_equal(&n, "enter") {
        Some(KeyBinding::Return)
    } else if chars_equal(&n, "escape") || chars_equal(&n, "esc") {
        Some(KeyBinding::Escape)
    } else if chars_equal(&n, "backspace") {
        Some(KeyBinding::Backspace)
    } else if chars_equal(&n, "control") || chars_equal(&n, "ctrl") {
        Some(KeyBinding::Control)
    } else if chars_equal(&n, "leftarrow") || chars_equal(&n, "left") {
        Some(KeyBinding::LeftArrow)
    } else if chars_equal(&n, "rightarrow") || chars_equal(&n, "right") {
        Some(KeyBinding::RightArrow)
    } else if chars_equal(&n, "uparrow") || chars_equal(&n, "up") {
        Some(KeyBinding::UpArrow)
    } else if chars_equal(&n, "downarrow") || chars_equal(&n, "down") {
        Some(KeyBinding::DownArrow)
    } else if n.len() == 1 && is_ascii_alphanumeric_char(n[0]) {
        Some(KeyBinding::Unicode(n[0]))
    } else {
        None
    }
}


/// Two names that differ at most in the case of ASCII letters.
pub open spec fn same_up_to_ascii_case(a: Seq<char>, b: Seq<char>) -> bool {
    &&& a.len() == b.len()
    &&& forall|i: int| 0 <= i < a.len() ==> ascii_lowercase(#[trigger] a[i]) == ascii_lowercase(b[i])
}

proof fn lemma_lowercase_keeps_white_space(c: char, d: char)
    requires
        ascii_lowercase(c) == ascii_lowercase(d),
    ensures
        is_white_space(c) == is_white_space(d),
{
}

proof fn lemma_lowercase_idempotent(c: char)
    ensures
        ascii_lowercase(ascii_lowercase(c)) == ascii_lowercase(c),
        is_white_space(ascii_lowercase(c)) == is_white_space(c),
{
}

proof fn lemma_trim_start_case(a: Seq<char>, b: Seq<char>)
    requires
        same_up_to_ascii_case(a, b),
    ensures
        same_up_to_ascii_case(trim_start(a), trim_start(b)),
    decreases a.len(),
{
    if a.len() > 0 {
        lemma_lowercase_keeps_white_space(a[0], b[0]);
        if is_white_space(a[0]) {
            let a1 = a.drop_first();
            let b1 = b.drop_first();
            assert forall|i: int| 0 <= i < a1.len() implies ascii_lowercase(#[trigger] a1[i])
                == ascii_lowercase(b1[i]) by {
                assert(a1[i] == a[i + 1] && b1[i] == b[i + 1]);
            }
            lemma_trim_start_case(a1, b1);
        }
    }
}

proof fn lemma_trim_end_case(a: Seq<char>, b: Seq<char>)
    requires
        same_up_to_ascii_case(a, b),
    ensures
        same_up_to_ascii_case(trim_end(a), trim_end(b)),
    decreases a.len(),
{
    if a.len() > 0 {
        lemma_lowercase_keeps_white_space(a.last(), b.last());
        if is_white_space(a.last()) {
            let a1 = a.drop_last();
            let b1 = b.drop_last();
            assert forall|i: int| 0 <= i < a1.len() implies ascii_lowercase(#[trigger] a1[i])
                == ascii_lowercase(b1[i]) by {
                assert(a1[i] == a[i] && b1[i] == b[i]);
            }
            lemma_trim_end_case(a1, b1);
        }
    }
}

/// Key names are compared without regard to ASCII case: two names that differ
/// only in the case of ASCII letters name the same key (or both none).
pub proof fn lemma_key_binding_ignores_ascii_case(a: Seq<char>, b: Seq<char>)
    requires
        same_up_to_ascii_case(a, b),
    ensures
        normalize_key_name(a) == normalize_key_name(b),
        key_binding_of(a) == key_binding_of(b),
{
    lemma_trim_start_case(a, b);
    lemma_trim_end_case(trim_start(a), trim_start(b));
    let ta = trim(a);
    let tb = trim(b);
    assert(to_lowercase(ta) =~= to_lowercase(tb));
}

/// All characters of `s` are white space.
pub open spec fn all_white_space(s: Seq<char>) -> bool {
    forall|i: int| 0 <= i < s.len() ==> is_white_space(#[trigger] s[i])
}

proof fn lemma_trim_start_prefix(pre: Seq<char>, s: Seq<char>)
    requires
        all_white_space(pre),
    ensures
        trim_start(pre + s) == trim_start(s),
    decreases pre.len(),
{
    if pre.len() > 0 {
        assert((pre + s)[0] == pre[0]);
        assert((pre + s).drop_first() =~= pre.drop_first() + s);
        let p1 = pre.drop_first();
        assert forall|i: int| 0 <= i < p1.len() implies is_white_space(#[trigger] p1[i]) by {
            assert(p1[i] == pre[i + 1]);
        }
        lemma_trim_start_prefix(p1, s);
    } else {
        assert(pre + s =~= s);
    }
}

proof fn lemma_trim_end_suffix(s: Seq<char>, post: Seq<char>)
    requires
        all_white_space(post),
    ensures
        trim_end(s + post) == trim_end(s),
    decreases post.len(),
{
    if post.len() > 0 {
        assert((s + post).last() == post.last());
        assert((s + post).drop_last() =~= s + post.drop_last());
        let p1 = post.drop_last();
        assert forall|i: int| 0 <= i < p1.len() implies is_white_space(#[trigger] p1[i]) by {
            assert(p1[i] == post[i]);
        }
        lemma_trim_end_suffix(s, p1);
    } else {
        assert(s + post =~= s);
    }
}

proof fn lemma_trim_end_of_white_space(s: Seq<char>)
    requires
        all_white_space(s),
    ensures
        trim_end(s) == Seq::<char>::empty(),
    decreases s.len(),
{
    if s.len() > 0 {
        let s1 = s.drop_last();
        assert forall|i: int| 0 <= i < s1.len() implies is_white_space(#[trigger] s1[i]) by {
            assert(s1[i] == s[i]);
        }
        lemma_trim_end_of_white_space(s1);
    } else {
        assert(s =~= Seq::<char>::empty());
    }
}

proof fn lemma_trim_start_of_white_space(s: Seq<char>)
    requires
        all_white_space(s),
    ensures
        trim_start(s) == Seq::<char>::empty(),
    decreases s.len(),
{
    if s.len() > 0 {
        let s1 = s.drop_first();
        assert forall|i: int| 0 <= i < s1.len() implies is_white_space(#[trigger] s1[i]) by {
            assert(s1[i] == s[i + 1]);
        }
        lemma_trim_start_of_white_space(s1);
    } else {
        assert(s =~= Seq::<char>::empty());
    }
}

proof fn lemma_trim_suffix(s: Seq<char>, post: Seq<char>)
    requires
        all_white_space(post),
    ensures
        trim(s + post) == trim(s),
    decreases s.len(),
{
    if s.len() == 0 {
        assert(s + post =~= post);
        lemma_trim_start_of_white_space(post);
        assert(trim_start(s) == s);
        assert(trim_end(s) == s);
    } else if is_white_space(s[0]) {
        assert((s + post)[0] == s[0]);
        assert((s + post).drop_first() =~= s.drop_first() + post);
        lemma_trim_suffix(s.drop_first(), post);
    } else {
        assert((s + post)[0] == s[0]);
        lemma_trim_end_suffix(s, post);
    }
}

/// White space around a key name does not change the key it names.
pub proof fn lemma_key_binding_ignores_surrounding_white_space(
    pre: Seq<char>,
    s: Seq<char>,
    post: Seq<char>,
)
    requires
        all_white_space(pre),
        all_white_space(post),
    ensures
        normalize_key_name(pre + s + post) == normalize_key_name(s),
        key_binding_of(pre + s + post) == key_binding_of(s),
{
    assert(pre + s + post =~= pre + (s + post));
    lemma_trim_start_prefix(pre, s + post);
    lemma_trim_suffix(s, post);
}


proof fn lemma_trim_start_first(s: Seq<char>)
    ensures
        trim_start(s).len() == 0 || !is_white_space(trim_start(s)[0]),
    decreases s.len(),
{
    if s.len() > 0 && is_white_space(s[0]) {
        lemma_trim_start_first(s.drop_first());
    }
}

proof fn lemma_trim_end_prefix(s: Seq<char>)
    ensures
        trim_end(s).len() <= s.len(),
        trim_end(s) =~= s.subrange(0, trim_end(s).len() as int),
        trim_end(s).len() == 0 || !is_white_space(trim_end(s).last()),
    decreases s.len(),
{
    if s.len() > 0 && is_white_space(s.last()) {
        lemma_trim_end_prefix(s.drop_last());
    } else {
        assert(s.subrange(0, s.len() as int) =~= s);
    }
}

/// A name in normalized form normalizes to itself, so it names the same key as
/// the name it came from.
pub proof fn lemma_normalized_name_is_fixed_point(s: Seq<char>)
    ensures
        normalize_key_name(normalize_key_name(s)) == normalize_key_name(s),
        key_binding_of(normalize_key_name(s)) == key_binding_of(s),
{
    let r1 = trim_start(s);
    lemma_trim_start_first(s);
    lemma_trim_end_prefix(r1);
    let t = trim(s);
    let m = to_lowercase(t);
    if t.len() > 0 {
        assert(t[0] == r1[0]);
        lemma_lowercase_idempotent(t[0]);
        lemma_lowercase_idempotent(t.last());
        assert(m[0] == ascii_lowercase(t[0]));
        assert(m.last() == ascii_lowercase(t.last()));
    }
    assert(trim_start(m) == m);
    assert(trim_end(m) == m);
    assert forall|i: int| 0 <= i < m.len() implies ascii_lowercase(#[trigger] m[i]) == m[i] by {
        lemma_lowercase_idempotent(t[i]);
    }
    assert(to_lowercase(m) =~= m);
}


/// A name without white space at either end normalizes to its lowered form.
pub proof fn lemma_key_of_plain_name(s: Seq<char>, lowered: Seq<char>)
    requires
        s.len() > 0,
        !is_white_space(s[0]),
        !is_white_space(s.last()),
        to_lowercase(s) =~= lowered,
    ensures
        normalize_key_name(s) == lowered,
        key_binding_of(s) == key_of_normalized_name(lowered),
{
    assert(trim_start(s) == s);
    assert(trim_end(s) == s);
}

/// The characters of the names that `key_of_normalized_name` knows.
pub proof fn lemma_known_key_names()
    ensures
        "space"@ =~= seq!['s', 'p', 'a', 'c', 'e'],
        "return"@ =~= seq!['r', 'e', 't', 'u', 'r', 'n'],
        "enter"@ =~= seq!['e', 'n', 't', 'e', 'r'],
        "escape"@ =~= seq!['e', 's', 'c', 'a', 'p', 'e'],
        "esc"@ =~= seq!['e', 's', 'c'],
        "backspace"@ =~= seq!['b', 'a', 'c', 'k', 's', 'p', 'a', 'c', 'e'],
        "control"@ =~= seq!['c', 'o', 'n', 't', 'r', 'o', 'l'],
        "ctrl"@ =~= seq!['c', 't', 'r', 'l'],
        "leftarrow"@ =~= seq!['l', 'e', 'f', 't', 'a', 'r', 'r', 'o', 'w'],
        "left"@ =~= seq!['l', 'e', 'f', 't'],
        "rightarrow"@ =~= seq!['r', 'i', 'g', 'h', 't', 'a', 'r', 'r', 'o', 'w'],
        "right"@ =~= seq!['r', 'i', 'g', 'h', 't'],
        "uparrow"@ =~= seq!['u', 'p', 'a', 'r', 'r', 'o', 'w'],
        "up"@ =~= seq!['u', 'p'],
        "downarrow"@ =~= seq!['d', 'o', 'w', 'n', 'a', 'r', 'r', 'o', 'w'],
        "down"@ =~= seq!['d', 'o', 'w', 'n'],
{
    reveal_strlit("space");
    reveal_strlit("return");
    reveal_strlit("enter");
    reveal_strlit("escape");
    reveal_strlit("esc");
    reveal_strlit("backspace");
    reveal_strlit("control");
    reveal_strlit("ctrl");
    reveal_strlit("leftarrow");
    reveal_strlit("left");
    reveal_strlit("rightarrow");
    reveal_strlit("right");
    reveal_strlit("uparrow");
    reveal_strlit("up");
    reveal_strlit("downarrow");
    reveal_strlit("down");
}


/// A name of a single ASCII letter or digit denotes that character, a letter in
/// lower case (`Z` and `z` both denote `z`); a name of any other single character
/// (other than white space) denotes no key.
pub proof fn lemma_single_character_names(c: char)
    ensures
        ('0' <= c && c <= '9') || ('a' <= c && c <= 'z') ==> key_binding_of(seq![c]) == Some(
            KeyBinding::Unicode(c),
        ),
        ('A' <= c && c <= 'Z') ==> key_binding_of(seq![c]) == Some(
            KeyBinding::Unicode(((c as u32) + 32) as char),
        ),
        !('0' <= c && c <= '9') && !('a' <= c && c <= 'z') && !('A' <= c && c <= 'Z')
            && !is_white_space(c) ==> key_binding_of(seq![c]) is None,
{
    lemma_known_key_names();
    let s = seq![c];
    if !is_white_space(c) {
        lemma_key_of_plain_name(s, seq![ascii_lowercase(c)]);
        assert(normalize_key_name(s) == seq![ascii_lowercase(c)]);
    } else {
        assert(!('0' <= c && c <= '9') && !('a' <= c && c <= 'z') && !('A' <= c && c <= 'Z'));
    }
}

} // verus!
