//! Key bindings: parsing key specs such as `ctrl+n` or `g g`, the keymap
//! built from the configured bindings, chord resolution, and the labels the
//! footer shows for bound keys.

use vstd::prelude::*;
use crate::text::{chars_of, opt_text, push_char, same_chars, split_words, words};

verus! {

/// A picker command that key sequences can be bound to.
#[derive(Clone, Copy, Debug, PartialEq, Eq, Structural)]
pub enum Action {
    Up,
    Down,
    PageUp,
    PageDown,
    Top,
    Bottom,
    Expand,
    Collapse,
    Toggle,
    Accept,
    Cancel,
}

/// A key, without modifiers.
#[derive(Clone, Copy, Debug, PartialEq, Eq, Structural)]
pub enum KeyCode {
    Char(char),
    Enter,
    Esc,
    Tab,
    BackTab,
    Backspace,
    Delete,
    Insert,
    Up,
    Down,
    Left,
    Right,
    Home,
    End,
    PageUp,
    PageDown,
}

/// One key press. Shift is folded into letters (`shift+g` is `G`), so
/// `shift` is only ever set for non-character keys.
#[derive(Clone, Copy, Debug, PartialEq, Eq, Structural)]
pub struct KeyPress {
    pub code: KeyCode,
    pub ctrl: bool,
    pub alt: bool,
    pub shift: bool,
}

/// The keys of a binding, pressed one after another.
#[derive(Debug)]
pub struct KeySequence(pub Vec<KeyPress>);

/// The key a name stands for: a single character stands for itself.
pub open spec fn named_key(name: Seq<char>) -> Option<KeyCode> {
    if name.len() == 1 {
        Some(KeyCode::Char(name[0]))
    } else if name == "space"@ {
        Some(KeyCode::Char(' '))
    } else if name == "enter"@ {
        Some(KeyCode::Enter)
    } else if name == "esc"@ {
        Some(KeyCode::Esc)
    } else if name == "tab"@ {
        Some(KeyCode::Tab)
    } else if name == "backtab"@ {
        Some(KeyCode::BackTab)
    } else if name == "backspace"@ {
        Some(KeyCode::Backspace)
    } else if name == "delete"@ {
        Some(KeyCode::Delete)
    } else if name == "insert"@ {
        Some(KeyCode::Insert)
    } else if name == "up"@ {
        Some(KeyCode::Up)
    } else if name == "down"@ {
        Some(KeyCode::Down)
    } else if name == "left"@ {
        Some(KeyCode::Left)
    } else if name == "right"@ {
        Some(KeyCode::Right)
    } else if name == "home"@ {
        Some(KeyCode::Home)
    } else if name == "end"@ {
        Some(KeyCode::End)
    } else if name == "pageup"@ {
        Some(KeyCode::PageUp)
    } else if name == "pagedown"@ {
        Some(KeyCode::PageDown)
    } else {
        None
    }
}

/// An ASCII lowercase letter.
pub open spec fn is_ascii_lower(c: char) -> bool {
    'a' <= c <= 'z'
}

/// The uppercase form of an ASCII lowercase letter.
pub open spec fn ascii_upper(c: char) -> char {
    ((c as u32) - 32) as char
}

/// The key press named by `name` under the given modifiers. Shift only
/// combines with letters (giving the uppercase letter) or with named keys.
pub open spec fn key_with_modifiers(name: Seq<char>, ctrl: bool, alt: bool, shift: bool) -> Option<
    KeyPress,
> {
    match named_key(name) {
        None => None,
        Some(KeyCode::Char(c)) => {
            if !shift {
                Some(KeyPress { code: KeyCode::Char(c), ctrl, alt, shift: false })
            } else if is_ascii_lower(c) {
                Some(KeyPress { code: KeyCode::Char(ascii_upper(c)), ctrl, alt, shift: false })
            } else {
                None
            }
        },
        Some(code) => Some(KeyPress { code, ctrl, alt, shift }),
    }
}

/// A single key token: `ctrl+`, `alt+` and `shift+` prefixes, then a key name.
pub open spec fn parse_token(tok: Seq<char>, ctrl: bool, alt: bool, shift: bool) -> Option<KeyPress>
    decreases tok.len(),
{
    if tok.len() > 5 && tok.take(5) == "ctrl+"@ {
        parse_token(tok.skip(5), true, alt, shift)
    } else if tok.len() > 4 && tok.take(4) == "alt+"@ {
        parse_token(tok.skip(4), ctrl, true, shift)
    } else if tok.len() > 6 && tok.take(6) == "shift+"@ {
        parse_token(tok.skip(6), ctrl, alt, true)
    } else {
        key_with_modifiers(tok, ctrl, alt, shift)
    }
}

/// Every token parsed, in order; `None` if one of them does not parse.
pub open spec fn parse_tokens(toks: Seq<Seq<char>>) -> Option<Seq<KeyPress>>
    decreases toks.len(),
{
    if toks.len() == 0 {
        Some(Seq::empty())
    } else {
        match (parse_tokens(toks.drop_last()), parse_token(toks.last(), false, false, false)) {
            (Some(keys), Some(k)) => Some(keys.push(k)),
            _ => None,
        }
    }
}

/// A key spec: one or more whitespace-separated key tokens.
pub open spec fn parse_spec(spec: Seq<char>) -> Option<Seq<KeyPress>> {
    if words(spec).len() == 0 {
        None
    } else {
        parse_tokens(words(spec))
    }
}

/// The error a key spec that does not parse is reported with.
pub open spec fn invalid_spec_message(spec: Seq<char>) -> Seq<char> {
    "invalid key spec `"@ + spec + "`"@
}

/// Whether the characters `tok` start with the literal `lit` and go on after it.
fn starts_before_end(tok: &[char], lit: &str) -> (r: bool)
    ensures
        r == (tok@.len() > lit@.len() && tok@.take(lit@.len() as int) == lit@),
{
    let n = lit.unicode_len();
    if tok.len() <= n {
        return false;
    }
    let head = &tok[0..n];
    assert(head@ == tok@.take(n as int));
    same_chars(head, lit)
}

/// The key named by `name`.
fn lookup_named_key(name: &[char]) -> (r: Option<KeyCode>)
    ensures
        r == named_key(name@),
{
    if name.len() == 1 {
        Some(KeyCode::Char(name[0]))
    } else if same_chars(name, "space") {
        Some(KeyCode::Char(' '))
    } else if same_chars(name, "enter") {
        Some(KeyCode::Enter)
    } else if same_chars(name, "esc") {
        Some(KeyCode::Esc)
    } else if same_chars(name, "tab") {
        Some(KeyCode::Tab)
    } else if same_chars(name, "backtab") {
        Some(KeyCode::BackTab)
    } else if same_chars(name, "backspace") {
        Some(KeyCode::Backspace)
    } else if same_chars(name, "delete") {
        Some(KeyCode::Delete)
    } else if same_chars(name, "insert") {
        Some(KeyCode::Insert)
    } else if same_chars(name, "up") {
        Some(KeyCode::Up)
    } else if same_chars(name, "down") {
        Some(KeyCode::Down)
    } else if same_chars(name, "left") {
        Some(KeyCode::Left)
    } else if same_chars(name, "right") {
        Some(KeyCode::Right)
    } else if same_chars(name, "home") {
        Some(KeyCode::Home)
    } else if same_chars(name, "end") {
        Some(KeyCode::End)
    } else if same_chars(name, "pageup") {
        Some(KeyCode::PageUp)
    } else if same_chars(name, "pagedown") {
        Some(KeyCode::PageDown)
    } else {
        None
    }
}

/// Parses one key token under the modifiers gathered so far.
fn token_key(tok: &[char], ctrl: bool, alt: bool, shift: bool) -> (r: Option<KeyPress>)
    ensures
        r == parse_token(tok@, ctrl, alt, shift),
    decreases tok@.len(),
{
    proof {
        reveal_strlit("ctrl+");
        reveal_strlit("alt+");
        reveal_strlit("shift+");
    }
    if starts_before_end(tok, "ctrl+") {
        let rest = &tok[5..tok.len()];
        assert(rest@ == tok@.skip(5));
        return token_key(rest, true, alt, shift);
    }
    if starts_before_end(tok, "alt+") {
        let rest = &tok[4..tok.len()];
        assert(rest@ == tok@.skip(4));
        return token_key(rest, ctrl, true, shift);
    }
    if starts_before_end(tok, "shift+") {
        let rest = &tok[6..tok.len()];
        assert(rest@ == tok@.skip(6));
        return token_key(rest, ctrl, alt, true);
    }
    match lookup_named_key(tok) {
        None => None,
        Some(KeyCode::Char(c)) => {
            if !shift {
                Some(KeyPress { code: KeyCode::Char(c), ctrl, alt, shift: false })
            } else if 'a' <= c && c <= 'z' {
                let u = ((c as u32) - 32) as u8 as char;
                assert(u == ascii_upper(c));
                Some(KeyPress { code: KeyCode::Char(u), ctrl, alt, shift: false })
            } else {
                None
            }
        },
        Some(code) => Some(KeyPress { code, ctrl, alt, shift }),
    }
}

/// Parses a key spec such as `ctrl+n`, `shift+g` or the chord `g g`.
pub fn parse_key_spec(spec: &str) -> (r: Result<KeySequence, String>)
    ensures
        match r {
            Ok(keys) => parse_spec(spec@) == Some(keys.0@),
            Err(e) => parse_spec(spec@) is None && e@ == invalid_spec_message(spec@),
        },
{
    let cs = chars_of(spec);
    let toks = split_words(cs.as_slice());
    let ghost tv = toks@.map_values(|w: Vec<char>| w@);
    let mut keys: Vec<KeyPress> = Vec::new();
    let mut ok = toks.len() > 0;
    let mut i: usize = 0;
    assert(tv.take(0) =~= Seq::<Seq<char>>::empty());
    while ok && i < toks.len()
        invariant
            tv == toks@.map_values(|w: Vec<char>| w@),
            tv == words(spec@),
            i <= toks@.len(),
            ok ==> parse_tokens(tv.take(i as int)) == Some(keys@),
            ok ==> toks@.len() > 0,
            !ok ==> parse_spec(spec@) is None,
        decreases toks@.len() - i,
    {
        assert(tv.take(i + 1).drop_last() =~= tv.take(i as int));
        assert(tv[i as int] == toks@[i as int]@);
        match token_key(toks[i].as_slice(), false, false, false) {
            Some(k) => {
                keys.push(k);
            },
            None => {
                proof {
                    lemma_parse_tokens_prefix(tv, i as int + 1);
                }
                ok = false;
            },
        }
        i = i + 1;
    }
    if ok {
        assert(tv.take(toks@.len() as int) =~= tv);
        Ok(KeySequence(keys))
    } else {
        let mut e = String::from_str("invalid key spec `");
        e.append(spec);
        e.append("`");
        Err(e)
    }
}

/// A token list fails to parse when one of its prefixes does.
proof fn lemma_parse_tokens_prefix(toks: Seq<Seq<char>>, n: int)
    requires
        0 <= n <= toks.len(),
        parse_tokens(toks.take(n)) is None,
    ensures
        parse_tokens(toks) is None,
    decreases toks.len() - n,
{
    if n < toks.len() {
        assert(toks.take(n + 1).drop_last() =~= toks.take(n));
        lemma_parse_tokens_prefix(toks, n + 1);
    } else {
        assert(toks.take(n) =~= toks);
    }
}


/// What the keys pressed so far amount to.
#[derive(Clone, Copy, Debug, PartialEq, Eq, Structural)]
pub enum Resolution {
    /// The keys complete the binding of this action.
    Action(Action),
    /// The keys begin a longer binding; wait for more.
    Pending,
    /// The keys match no binding.
    NoMatch,
}

/// `a` is a prefix of `b` (equal sequences included).
pub open spec fn is_prefix(a: Seq<KeyPress>, b: Seq<KeyPress>) -> bool {
    a.len() <= b.len() && b.take(a.len() as int) == a
}

/// No binding is empty, and no binding's keys begin another binding's keys,
/// so every key sequence resolves one way.
pub open spec fn prefix_free(b: Seq<(Seq<KeyPress>, Action)>) -> bool {
    &&& forall|i: int| 0 <= i < b.len() ==> (#[trigger] b[i]).0.len() > 0
    &&& forall|i: int, j: int|
        0 <= i < b.len() && 0 <= j < b.len() && i != j ==> !is_prefix(
            (#[trigger] b[i]).0,
            (#[trigger] b[j]).0,
        )
}

/// Some binding has exactly these keys.
pub open spec fn binds(b: Seq<(Seq<KeyPress>, Action)>, keys: Seq<KeyPress>) -> bool {
    exists|i: int| 0 <= i < b.len() && (#[trigger] b[i]).0 == keys
}

/// Some binding's keys go on after these keys.
pub open spec fn continues(b: Seq<(Seq<KeyPress>, Action)>, keys: Seq<KeyPress>) -> bool {
    exists|i: int| 0 <= i < b.len() && is_prefix(keys, (#[trigger] b[i]).0) && keys.len() < b[i].0.len()
}

/// How the bindings `b` resolve the keys pressed so far.
pub open spec fn resolve_keys(b: Seq<(Seq<KeyPress>, Action)>, keys: Seq<KeyPress>) -> Resolution {
    if binds(b, keys) {
        Resolution::Action(b[choose|i: int| 0 <= i < b.len() && (#[trigger] b[i]).0 == keys].1)
    } else if continues(b, keys) {
        Resolution::Pending
    } else {
        Resolution::NoMatch
    }
}

/// How the footer names a key without its modifiers.
pub open spec fn code_label(code: KeyCode) -> Seq<char> {
    match code {
        KeyCode::Char(c) => if c == ' ' {
            "space"@
        } else {
            seq![c]
        },
        KeyCode::Enter => "enter"@,
        KeyCode::Esc => "esc"@,
        KeyCode::Tab => "tab"@,
        KeyCode::BackTab => "backtab"@,
        KeyCode::Backspace => "backspace"@,
        KeyCode::Delete => "delete"@,
        KeyCode::Insert => "insert"@,
        KeyCode::Up => "↑"@,
        KeyCode::Down => "↓"@,
        KeyCode::Left => "←"@,
        KeyCode::Right => "→"@,
        KeyCode::Home => "home"@,
        KeyCode::End => "end"@,
        KeyCode::PageUp => "pageup"@,
        KeyCode::PageDown => "pagedown"@,
    }
}

/// How the footer names a key press: `C-`, `M-` and `S-` for the
/// modifiers, then the key.
pub open spec fn key_label(k: KeyPress) -> Seq<char> {
    (if k.ctrl {
        "C-"@
    } else {
        Seq::empty()
    }) + (if k.alt {
        "M-"@
    } else {
        Seq::empty()
    }) + (if k.shift {
        "S-"@
    } else {
        Seq::empty()
    }) + code_label(k.code)
}

/// How the footer names a key sequence: its keys separated by spaces.
pub open spec fn keys_label(keys: Seq<KeyPress>) -> Seq<char>
    decreases keys.len(),
{
    if keys.len() == 0 {
        Seq::empty()
    } else if keys.len() == 1 {
        key_label(keys[0])
    } else {
        keys_label(keys.drop_last()) + " "@ + key_label(keys.last())
    }
}

/// The label of one key press.
pub fn key_press_label(k: KeyPress) -> (s: String)
    ensures
        s@ == key_label(k),
{
    let mut s = String::new();
    if k.ctrl {
        s.append("C-");
    }
    if k.alt {
        s.append("M-");
    }
    if k.shift {
        s.append("S-");
    }
    let ghost mods = s@;
    match k.code {
        KeyCode::Char(c) => {
            if c == ' ' {
                s.append("space");
            } else {
                push_char(&mut s, c);
            }
        },
        KeyCode::Enter => s.append("enter"),
        KeyCode::Esc => s.append("esc"),
        KeyCode::Tab => s.append("tab"),
        KeyCode::BackTab => s.append("backtab"),
        KeyCode::Backspace => s.append("backspace"),
        KeyCode::Delete => s.append("delete"),
        KeyCode::Insert => s.append("insert"),
        KeyCode::Up => s.append("↑"),
        KeyCode::Down => s.append("↓"),
        KeyCode::Left => s.append("←"),
        KeyCode::Right => s.append("→"),
        KeyCode::Home => s.append("home"),
        KeyCode::End => s.append("end"),
        KeyCode::PageUp => s.append("pageup"),
        KeyCode::PageDown => s.append("pagedown"),
    }
    assert(s@ =~= key_label(k));
    s
}

/// The label of a key sequence.
pub fn key_sequence_label(keys: &Vec<KeyPress>) -> (s: String)
    ensures
        s@ == keys_label(keys@),
{
    let mut s = String::new();
    let mut i: usize = 0;
    while i < keys.len()
        invariant
            i <= keys@.len(),
            s@ == keys_label(keys@.take(i as int)),
        decreases keys@.len() - i,
    {
        let l = key_press_label(keys[i]);
        assert(keys@.take(i + 1).drop_last() =~= keys@.take(i as int));
        if i > 0 {
            s.append(" ");
        } else {
            assert(s@ =~= Seq::<char>::empty());
        }
        s.append(l.as_str());
        i = i + 1;
    }
    assert(keys@.take(keys@.len() as int) =~= keys@);
    s
}

/// The label of the first binding of `a` in `b`, if any.
pub open spec fn binding_label(b: Seq<(Seq<KeyPress>, Action)>, a: Action) -> Option<Seq<char>>
    decreases b.len(),
{
    if b.len() == 0 {
        None
    } else if b[0].1 == a {
        Some(keys_label(b[0].0))
    } else {
        binding_label(b.drop_first(), a)
    }
}

/// `binding_label` picks the first binding of the action, or none when no
/// binding has it.
proof fn lemma_binding_label(b: Seq<(Seq<KeyPress>, Action)>, a: Action, i: int)
    requires
        0 <= i <= b.len(),
        forall|j: int| 0 <= j < i ==> (#[trigger] b[j]).1 != a,
    ensures
        i < b.len() && b[i].1 == a ==> binding_label(b, a) == Some(keys_label(b[i].0)),
        i == b.len() ==> binding_label(b, a) is None,
    decreases i,
{
    if i > 0 {
        assert forall|j: int| 0 <= j < i - 1 implies (#[trigger] b.drop_first()[j]).1 != a by {
            assert(b.drop_first()[j] == b[j + 1]);
        }
        lemma_binding_label(b.drop_first(), a, i - 1);
        if i < b.len() {
            assert(b.drop_first()[i - 1] == b[i]);
        }
    }
}

/// Bindings from key sequences to actions.
#[derive(Debug)]
pub struct Keymap {
    bindings: Vec<(Vec<KeyPress>, Action)>,
}

impl View for Keymap {
    type V = Seq<(Seq<KeyPress>, Action)>;

    closed spec fn view(&self) -> Seq<(Seq<KeyPress>, Action)> {
        self.bindings@.map_values(|p: (Vec<KeyPress>, Action)| (p.0@, p.1))
    }
}

/// The configured bindings as plain values: each action with its key specs.
pub open spec fn bindings_view(bs: Seq<(Action, Vec<String>)>) -> Seq<(Action, Seq<Seq<char>>)> {
    bs.map_values(|p: (Action, Vec<String>)| (p.0, p.1@.map_values(|s: String| s@)))
}

/// Every (action, key spec) pair, in configuration order.
pub open spec fn binding_entries(bs: Seq<(Action, Seq<Seq<char>>)>) -> Seq<(Action, Seq<char>)>
    decreases bs.len(),
{
    if bs.len() == 0 {
        Seq::empty()
    } else {
        binding_entries(bs.drop_last()) + bs.last().1.map_values(
            |t: Seq<char>| (bs.last().0, t),
        )
    }
}

/// `keys` would make the bindings `b` ambiguous: it begins, or is begun by,
/// a binding already there.
pub open spec fn clashes(b: Seq<(Seq<KeyPress>, Action)>, keys: Seq<KeyPress>) -> bool {
    exists|i: int|
        0 <= i < b.len() && (is_prefix((#[trigger] b[i]).0, keys) || is_prefix(keys, b[i].0))
}

/// The warning for a key spec dropped because it clashes with an earlier one.
pub open spec fn clash_message(spec: Seq<char>) -> Seq<char> {
    "key spec `"@ + spec + "` clashes with an earlier binding"@
}

/// The bindings and warnings that taking the entries in order gives: a spec
/// that does not parse, or that clashes with one kept before it, is dropped
/// with a warning.
pub open spec fn build_keymap(es: Seq<(Action, Seq<char>)>) -> (Seq<(Seq<KeyPress>, Action)>, Seq<
    Seq<char>,
>)
    decreases es.len(),
{
    if es.len() == 0 {
        (Seq::empty(), Seq::empty())
    } else {
        let (b, w) = build_keymap(es.drop_last());
        let e = es.last();
        match parse_spec(e.1) {
            None => (b, w.push(invalid_spec_message(e.1))),
            Some(keys) => {
                if clashes(b, keys) {
                    (b, w.push(clash_message(e.1)))
                } else {
                    (b.push((keys, e.0)), w)
                }
            },
        }
    }
}

/// Parsed token lists have one key per token.
proof fn lemma_parse_tokens_len(toks: Seq<Seq<char>>)
    ensures
        parse_tokens(toks) matches Some(keys) ==> keys.len() == toks.len(),
    decreases toks.len(),
{
    if toks.len() > 0 {
        lemma_parse_tokens_len(toks.drop_last());
    }
}

/// Whether `keys` clashes with one of the bindings `b`.
fn clashes_any(b: &Vec<(Vec<KeyPress>, Action)>, keys: &Vec<KeyPress>) -> (r: bool)
    ensures
        r == clashes(b@.map_values(|p: (Vec<KeyPress>, Action)| (p.0@, p.1)), keys@),
{
    let ghost bv = b@.map_values(|p: (Vec<KeyPress>, Action)| (p.0@, p.1));
    let mut i: usize = 0;
    while i < b.len()
        invariant
            bv == b@.map_values(|p: (Vec<KeyPress>, Action)| (p.0@, p.1)),
            i <= b@.len(),
            forall|k: int|
                0 <= k < i ==> !(is_prefix((#[trigger] bv[k]).0, keys@) || is_prefix(
                    keys@,
                    bv[k].0,
                )),
        decreases b@.len() - i,
    {
        assert(bv[i as int].0 == b@[i as int].0@);
        if starts_with_keys(keys, &b[i].0) || starts_with_keys(&b[i].0, keys) {
            return true;
        }
        i = i + 1;
    }
    false
}

impl Keymap {
    /// Builds the keymap from `(action, key specs)` pairs, keeping them in
    /// order. Specs that do not parse, or that clash with a binding kept
    /// before them, are dropped and reported in the returned warnings.
    pub fn from_bindings(bindings: &[(Action, Vec<String>)]) -> (r: (Keymap, Vec<String>))
        ensures
            (r.0@, r.1@.map_values(|s: String| s@)) == build_keymap(
                binding_entries(bindings_view(bindings@)),
            ),
    {
        let ghost bv = bindings_view(bindings@);
        let mut kept: Vec<(Vec<KeyPress>, Action)> = Vec::new();
        let mut warnings: Vec<String> = Vec::new();
        let mut i: usize = 0;
        assert(bv.take(0) =~= Seq::<(Action, Seq<Seq<char>>)>::empty());
        while i < bindings.len()
            invariant
                bv == bindings_view(bindings@),
                i <= bindings@.len(),
                prefix_free(kept@.map_values(|p: (Vec<KeyPress>, Action)| (p.0@, p.1))),
                (kept@.map_values(|p: (Vec<KeyPress>, Action)| (p.0@, p.1)), warnings@.map_values(
                    |s: String| s@,
                )) == build_keymap(binding_entries(bv.take(i as int))),
            decreases bindings@.len() - i,
        {
            let action = bindings[i].0;
            let specs = &bindings[i].1;
            let ghost before = binding_entries(bv.take(i as int));
            let ghost texts = specs@.map_values(|s: String| s@);
            assert(bv[i as int] == (action, texts));
            let mut j: usize = 0;
            assert(before + texts.take(0).map_values(|t: Seq<char>| (action, t)) =~= before);
            while j < specs.len()
                invariant
                    bv == bindings_view(bindings@),
                    i < bindings@.len(),
                    texts == specs@.map_values(|s: String| s@),
                    j <= specs@.len(),
                    prefix_free(kept@.map_values(|p: (Vec<KeyPress>, Action)| (p.0@, p.1))),
                    (kept@.map_values(|p: (Vec<KeyPress>, Action)| (p.0@, p.1)),
                    warnings@.map_values(|s: String| s@)) == build_keymap(
                        before + texts.take(j as int).map_values(|t: Seq<char>| (action, t)),
                    ),
                decreases specs@.len() - j,
            {
                let ghost es = before + texts.take(j as int).map_values(
                    |t: Seq<char>| (action, t),
                );
                let ghost es2 = before + texts.take(j + 1).map_values(|t: Seq<char>| (action, t));
                assert(es2 =~= es.push((action, specs@[j as int]@)));
                assert(es2.drop_last() =~= es);
                let ghost kv = kept@.map_values(|p: (Vec<KeyPress>, Action)| (p.0@, p.1));
                let ghost wv = warnings@.map_values(|s: String| s@);
                match parse_key_spec(specs[j].as_str()) {
                    Err(e) => {
                        warnings.push(e);
                        assert(warnings@.map_values(|s: String| s@) =~= wv.push(
                            invalid_spec_message(specs@[j as int]@),
                        ));
                    },
                    Ok(keys) => {
                        let keys = keys.0;
                        if clashes_any(&kept, &keys) {
                            let mut msg = String::from_str("key spec `");
                            msg.append(specs[j].as_str());
                            msg.append("` clashes with an earlier binding");
                            warnings.push(msg);
                            assert(warnings@.map_values(|s: String| s@) =~= wv.push(
                                clash_message(specs@[j as int]@),
                            ));
                        } else {
                            proof {
                                lemma_parse_tokens_len(words(specs@[j as int]@));
                            }
                            kept.push((keys, action));
                            let ghost kv2 = kept@.map_values(
                                |p: (Vec<KeyPress>, Action)| (p.0@, p.1),
                            );
                            assert(kv2 =~= kv.push((keys@, action)));
                            assert(prefix_free(kv2)) by {
                                assert forall|a: int, c: int|
                                    0 <= a < kv2.len() && 0 <= c < kv2.len() && a != c implies !is_prefix(
                                    (#[trigger] kv2[a]).0,
                                    (#[trigger] kv2[c]).0,
                                ) by {
                                    if a == kv.len() {
                                        assert(kv2[c] == kv[c]);
                                    } else if c == kv.len() {
                                        assert(kv2[a] == kv[a]);
                                    } else {
                                        assert(kv2[a] == kv[a] && kv2[c] == kv[c]);
                                    }
                                }
                            }
                        }
                    },
                }
                j = j + 1;
            }
            proof {
                assert(texts.take(specs@.len() as int) =~= texts);
                assert(bv.take(i + 1).drop_last() =~= bv.take(i as int));
                assert(bv.take(i + 1).last() == bv[i as int]);
            }
            i = i + 1;
        }
        assert(bv.take(bindings@.len() as int) =~= bv);
        (Keymap { bindings: kept }, warnings)
    }

    #[verifier::type_invariant]
    closed spec fn inv(self) -> bool {
        prefix_free(self@)
    }

    /// The label of the first binding of `action`, if it has one.
    pub fn first_binding_label(&self, action: Action) -> (r: Option<String>)
        ensures
            opt_text(r) == binding_label(self@, action),
    {
        let ghost b = self@;
        let mut i: usize = 0;
        while i < self.bindings.len()
            invariant
                b == self@,
                b.len() == self.bindings@.len(),
                i <= b.len(),
                forall|j: int| 0 <= j < i ==> (#[trigger] b[j]).1 != action,
            decreases b.len() - i,
        {
            assert(b[i as int] == (self.bindings@[i as int].0@, self.bindings@[i as int].1));
            if self.bindings[i].1 == action {
                let label = key_sequence_label(&self.bindings[i].0);
                proof {
                    lemma_binding_label(b, action, i as int);
                }
                return Some(label);
            }
            i = i + 1;
        }
        proof {
            lemma_binding_label(b, action, i as int);
        }
        None
    }

    /// How the keys pressed so far, `pending` and then `key`, resolve.
    pub fn resolve(&self, pending: &[KeyPress], key: KeyPress) -> (r: Resolution)
        ensures
            r == resolve_keys(self@, pending@.push(key)),
    {
        proof {
            use_type_invariant(self);
        }
        let ghost b = self@;
        let mut keys: Vec<KeyPress> = Vec::new();
        let mut i: usize = 0;
        while i < pending.len()
            invariant
                i <= pending@.len(),
                keys@ == pending@.take(i as int),
            decreases pending@.len() - i,
        {
            keys.push(pending[i]);
            assert(keys@ =~= pending@.take(i + 1));
            i = i + 1;
        }
        keys.push(key);
        assert(keys@ =~= pending@.push(key));
        let mut longer = false;
        let mut j: usize = 0;
        while j < self.bindings.len()
            invariant
                b == self@,
                prefix_free(b),
                b.len() == self.bindings@.len(),
                keys@ == pending@.push(key),
                j <= b.len(),
                forall|k: int| 0 <= k < j ==> (#[trigger] b[k]).0 != keys@,
                longer == (exists|k: int|
                    0 <= k < j && is_prefix(keys@, (#[trigger] b[k]).0) && keys@.len() < b[k].0.len()),
            decreases b.len() - j,
        {
            let bound = &self.bindings[j].0;
            assert(b[j as int].0 == bound@);
            if same_keys(bound, &keys) {
                let ghost c = choose|i: int| 0 <= i < b.len() && (#[trigger] b[i]).0 == keys@;
                assert(c == j as int) by {
                    if c != j {
                        assert(b[c].0.take(b[j as int].0.len() as int) =~= b[j as int].0);
                    }
                }
                return Resolution::Action(self.bindings[j].1);
            }
            if keys.len() < bound.len() && starts_with_keys(bound, &keys) {
                longer = true;
            }
            j = j + 1;
        }
        if longer {
            Resolution::Pending
        } else {
            Resolution::NoMatch
        }
    }
}

/// Whether two key sequences are equal.
fn same_keys(a: &Vec<KeyPress>, b: &Vec<KeyPress>) -> (r: bool)
    ensures
        r == (a@ == b@),
{
    if a.len() != b.len() {
        return false;
    }
    assert(a@.take(a@.len() as int) =~= a@);
    starts_with_keys(a, b)
}

/// Whether `a` begins with the keys of `b`.
fn starts_with_keys(a: &Vec<KeyPress>, b: &Vec<KeyPress>) -> (r: bool)
    ensures
        r == is_prefix(b@, a@),
{
    if b.len() > a.len() {
        return false;
    }
    let mut i: usize = 0;
    while i < b.len()
        invariant
            b@.len() <= a@.len(),
            i <= b@.len(),
            forall|k: int| 0 <= k < i ==> a@[k] == b@[k],
        decreases b@.len() - i,
    {
        if a[i] != b[i] {
            assert(a@.take(b@.len() as int)[i as int] != b@[i as int]);
            return false;
        }
        i = i + 1;
    }
    assert(a@.take(b@.len() as int) =~= b@);
    true
}


/// Building a keymap accounts for every configured key spec: each one is
/// either kept as a binding or reported in a warning, and what is kept is
/// unambiguous.
pub proof fn law_every_spec_kept_or_reported(es: Seq<(Action, Seq<char>)>)
    ensures
        build_keymap(es).0.len() + build_keymap(es).1.len() == es.len(),
        prefix_free(build_keymap(es).0),
    decreases es.len(),
{
    if es.len() > 0 {
        law_every_spec_kept_or_reported(es.drop_last());
        let (b, w) = build_keymap(es.drop_last());
        let e = es.last();
        if let Some(keys) = parse_spec(e.1) {
            if !clashes(b, keys) {
                lemma_parse_tokens_len(words(e.1));
                let b2 = b.push((keys, e.0));
                assert forall|x: int, y: int|
                    0 <= x < b2.len() && 0 <= y < b2.len() && x != y implies !is_prefix(
                    (#[trigger] b2[x]).0,
                    (#[trigger] b2[y]).0,
                ) by {
                    if x == b.len() {
                        assert(b2[y] == b[y]);
                    } else if y == b.len() {
                        assert(b2[x] == b[x]);
                    } else {
                        assert(b2[x] == b[x] && b2[y] == b[y]);
                    }
                }
            }
        }
    }
}

/// Typing the keys of a binding one by one waits for more keys until the
/// last one, which fires the binding's action.
pub proof fn law_binding_fires_on_its_last_key(
    b: Seq<(Seq<KeyPress>, Action)>,
    i: int,
    m: int,
)
    requires
        prefix_free(b),
        0 <= i < b.len(),
        1 <= m <= b[i].0.len(),
    ensures
        m < b[i].0.len() ==> resolve_keys(b, b[i].0.take(m)) == Resolution::Pending,
        m == b[i].0.len() ==> resolve_keys(b, b[i].0.take(m)) == Resolution::Action(b[i].1),
{
    let keys = b[i].0.take(m);
    if m < b[i].0.len() {
        assert(is_prefix(keys, b[i].0));
        if binds(b, keys) {
            let c = choose|c: int| 0 <= c < b.len() && (#[trigger] b[c]).0 == keys;
            assert(c != i);
            assert(is_prefix(b[c].0, b[i].0));
        }
    } else {
        assert(keys =~= b[i].0);
        let c = choose|c: int| 0 <= c < b.len() && (#[trigger] b[c]).0 == keys;
        if c != i {
            assert(b[i].0.take(b[c].0.len() as int) =~= b[c].0);
            assert(is_prefix(b[c].0, b[i].0));
        }
    }
}

/// Keys that begin no binding match nothing, and keys that begin a longer
/// binding without completing one wait for more.
pub proof fn law_keys_outside_every_binding_match_nothing(
    b: Seq<(Seq<KeyPress>, Action)>,
    keys: Seq<KeyPress>,
)
    ensures
        (forall|i: int| 0 <= i < b.len() ==> !is_prefix(keys, #[trigger] b[i].0)) ==> resolve_keys(
            b,
            keys,
        ) == Resolution::NoMatch,
        (forall|i: int| 0 <= i < b.len() ==> (#[trigger] b[i]).0 != keys) && (exists|i: int|
            0 <= i < b.len() && is_prefix(keys, #[trigger] b[i].0)) ==> resolve_keys(b, keys)
            == Resolution::Pending,
{
    if forall|i: int| 0 <= i < b.len() ==> !is_prefix(keys, #[trigger] b[i].0) {
        if binds(b, keys) {
            let c = choose|c: int| 0 <= c < b.len() && (#[trigger] b[c]).0 == keys;
            assert(b[c].0.take(keys.len() as int) =~= keys);
        }
    }
    if (forall|i: int| 0 <= i < b.len() ==> (#[trigger] b[i]).0 != keys) && (exists|i: int|
        0 <= i < b.len() && is_prefix(keys, #[trigger] b[i].0)) {
        let c = choose|c: int| 0 <= c < b.len() && is_prefix(keys, #[trigger] b[c].0);
        if keys.len() == b[c].0.len() {
            assert(b[c].0 =~= keys);
        }
        assert(continues(b, keys));
    }
}

/// An action is labelled by the first of its bindings, and has no label
/// when nothing is bound to it.
pub proof fn law_an_action_is_labelled_by_its_first_binding(
    b: Seq<(Seq<KeyPress>, Action)>,
    a: Action,
    i: int,
)
    requires
        0 <= i <= b.len(),
        forall|j: int| 0 <= j < i ==> (#[trigger] b[j]).1 != a,
        i < b.len() ==> b[i].1 == a,
    ensures
        i < b.len() ==> binding_label(b, a) == Some(keys_label(b[i].0)),
        i == b.len() ==> binding_label(b, a) is None,
{
    lemma_binding_label(b, a, i);
}

} // verus!
