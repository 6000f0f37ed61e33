//! Key bindings: the keymap file's sections, the bindings they give, and which
//! bindings a key press selects.
use std::rc::Rc;

use vstd::prelude::*;

use crate::error::{KeymapError, KeymapErrorView};
use crate::key_context::{parse_key_context, KeyContext, KeyContextView};
use crate::keystroke::{
    is_modifier_word, keystroke_step, lemma_modifier_word_one_piece, lemma_pieces_join,
    lemma_pieces_without_separator, lemma_step_modifier, parse_keystroke, with_modifier, word_alt, word_cmd,
    word_ctrl, word_meta, word_shift, word_super, word_win, Keystroke, KeystrokeState, KeystrokeView, Modifiers,
};
use crate::text::{
    ascii_lower_seq, is_ascii_upper, pieces, push_chars, split_words, str_to_chars, string_push, unicode_lowercase,
    unicode_uppercase, views, words, Separator,
};

verus! {

/// Calls `Rc::clone`, which hands out another pointer to the same value.
#[verifier::external_body]
fn rc_clone<T>(r: &Rc<T>) -> (c: Rc<T>)
    ensures
        c == *r,
{
    r.clone()
}

/// The mathematical value of a `KeyBinding`.
pub struct KeyBindingView<A> {
    pub action: A,
    pub keystrokes: Seq<KeystrokeView>,
    pub key_context: Option<KeyContextView>,
}

/// An action bound to a sequence of keystrokes, in an optional key context.
#[derive(Debug)]
pub struct KeyBinding<A> {
    pub action: A,
    pub keystrokes: Vec<Keystroke>,
    pub key_context: Option<Rc<KeyContext>>,
}

pub open spec fn context_view(c: Option<Rc<KeyContext>>) -> Option<KeyContextView> {
    match c {
        Some(c) => Some((*c)@),
        None => None,
    }
}

pub open spec fn keystroke_views(ks: Seq<Keystroke>) -> Seq<KeystrokeView> {
    ks.map_values(|k: Keystroke| k@)
}

impl<A: View> View for KeyBinding<A> {
    type V = KeyBindingView<A::V>;

    open spec fn view(&self) -> KeyBindingView<A::V> {
        KeyBindingView {
            action: self.action@,
            keystrokes: keystroke_views(self.keystrokes@),
            key_context: context_view(self.key_context),
        }
    }
}

pub open spec fn binding_views<A: View>(bs: Seq<KeyBinding<A>>) -> Seq<KeyBindingView<A::V>> {
    bs.map_values(|b: KeyBinding<A>| b@)
}

/// All key bindings, in the order they were added.
#[derive(Debug)]
pub struct KeyBindings<A>(pub Vec<KeyBinding<A>>);

impl<A: View> View for KeyBindings<A> {
    type V = Seq<KeyBindingView<A::V>>;

    open spec fn view(&self) -> Seq<KeyBindingView<A::V>> {
        binding_views(self.0@)
    }
}

impl<A: View> KeyBindings<A> {
    /// No bindings.
    pub fn new() -> (r: Self)
        ensures
            r@ == Seq::<KeyBindingView<A::V>>::empty(),
    {
        let r = KeyBindings(Vec::new());
        proof {
            assert(r@ =~= Seq::<KeyBindingView<A::V>>::empty());
        }
        r
    }

    /// Appends the bindings, keeping their order, after those already held.
    pub fn add_bindings(&mut self, bindings: Vec<KeyBinding<A>>)
        ensures
            final(self)@ == old(self)@ + binding_views(bindings@),
    {
        let ghost start = self@;
        let ghost orig = bindings@;
        let n = bindings.len();
        let mut rest = bindings;
        let mut i: usize = 0;
        while rest.len() > 0
            invariant
                i + rest.len() == orig.len(),
                orig.len() == n,
                rest@ == orig.skip(i as int),
                self@ == start + binding_views(orig.take(i as int)),
            decreases rest.len(),
        {
            let b = rest.remove(0);
            proof {
                assert(b == orig[i as int]);
            }
            let ghost before = self@;
            self.0.push(b);
            i = i + 1;
            proof {
                assert(rest@ =~= orig.skip(i as int));
                assert(orig.take(i as int) =~= orig.take(i - 1).push(b));
                assert(binding_views(orig.take(i as int)) =~= binding_views(orig.take(i - 1)).push(b@));
                assert(self@ =~= before.push(b@));
            }
        }
        proof {
            assert(orig.take(orig.len() as int) =~= orig);
        }
    }
}


/// The value a binding gives its keystrokes in the keymap file.
#[derive(Debug, Clone, PartialEq)]
pub enum BindingValue {
    /// The name of an action.
    Str(String),
    /// Anything that is not a string.
    Other,
}

pub enum BindingValueView {
    Str(Seq<char>),
    Other,
}

impl View for BindingValue {
    type V = BindingValueView;

    open spec fn view(&self) -> BindingValueView {
        match self {
            BindingValue::Str(s) => BindingValueView::Str(s@),
            BindingValue::Other => BindingValueView::Other,
        }
    }
}

/// One section of the keymap file: a key context (empty for none) and its bindings
/// from keystroke text to action.
#[derive(Debug, Clone)]
pub struct KeyBindingsFileSection {
    pub context: String,
    pub bindings: Vec<(String, BindingValue)>,
}

pub type SectionView = (Seq<char>, Seq<(Seq<char>, BindingValueView)>);

pub open spec fn entry_views(bs: Seq<(String, BindingValue)>) -> Seq<(Seq<char>, BindingValueView)> {
    bs.map_values(|e: (String, BindingValue)| (e.0@, e.1@))
}

impl View for KeyBindingsFileSection {
    type V = SectionView;

    open spec fn view(&self) -> SectionView {
        (self.context@, entry_views(self.bindings@))
    }
}

/// The keymap file: its sections, in order.
#[derive(Debug, Clone)]
pub struct KeyBindingsFile {
    pub keybindings: Vec<KeyBindingsFileSection>,
}

pub open spec fn section_views(ss: Seq<KeyBindingsFileSection>) -> Seq<SectionView> {
    ss.map_values(|s: KeyBindingsFileSection| s@)
}

impl View for KeyBindingsFile {
    type V = Seq<SectionView>;

    open spec fn view(&self) -> Seq<SectionView> {
        section_views(self.keybindings@)
    }
}

/// The keystrokes among `ws` that parse, in order; the others are skipped.
pub open spec fn parsed_keystrokes(ws: Seq<Seq<char>>) -> Seq<KeystrokeView>
    decreases ws.len(),
{
    if ws.len() == 0 {
        Seq::empty()
    } else {
        let prev = parsed_keystrokes(ws.drop_last());
        match parse_keystroke(ws.last()) {
            Some(k) => prev.push(k),
            None => prev,
        }
    }
}

/// The name an action is looked up by: `context::name`, or `name` outside a context.
pub open spec fn action_name(context: Seq<char>, name: Seq<char>) -> Seq<char> {
    if context.len() == 0 {
        name
    } else {
        context + seq![':', ':'] + name
    }
}

/// The key context of a section: none where its text is empty.
pub open spec fn section_context(context: Seq<char>) -> Result<Option<KeyContextView>, KeymapErrorView> {
    if context.len() == 0 {
        Ok(None)
    } else {
        match parse_key_context(context) {
            Ok(v) => Ok(Some(v)),
            Err(e) => Err(e),
        }
    }
}

/// The bindings of one section's entries, or the first error among them.
pub open spec fn section_bindings(
    context: Seq<char>,
    pred: Option<KeyContextView>,
    es: Seq<(Seq<char>, BindingValueView)>,
) -> Result<Seq<KeyBindingView<Seq<char>>>, KeymapErrorView>
    decreases es.len(),
{
    if es.len() == 0 {
        Ok(Seq::empty())
    } else {
        match section_bindings(context, pred, es.drop_last()) {
            Err(e) => Err(e),
            Ok(prev) => match es.last().1 {
                BindingValueView::Other => Err(KeymapErrorView::ActionNotString),
                BindingValueView::Str(name) => Ok(
                    prev.push(
                        KeyBindingView {
                            action: action_name(context, name),
                            keystrokes: parsed_keystrokes(words(es.last().0, Separator::WhiteSpace)),
                            key_context: pred,
                        },
                    ),
                ),
            },
        }
    }
}

/// The bindings of the whole file, section after section, or the first error in it.
pub open spec fn file_bindings(ss: Seq<SectionView>) -> Result<Seq<KeyBindingView<Seq<char>>>, KeymapErrorView>
    decreases ss.len(),
{
    if ss.len() == 0 {
        Ok(Seq::empty())
    } else {
        match file_bindings(ss.drop_last()) {
            Err(e) => Err(e),
            Ok(prev) => match section_context(ss.last().0) {
                Err(e) => Err(e),
                Ok(pred) => match section_bindings(ss.last().0, pred, ss.last().1) {
                    Err(e) => Err(e),
                    Ok(bs) => Ok(prev + bs),
                },
            },
        }
    }
}

pub proof fn lemma_section_error_stays(
    context: Seq<char>,
    pred: Option<KeyContextView>,
    es: Seq<(Seq<char>, BindingValueView)>,
    k: int,
)
    requires
        0 <= k <= es.len(),
        section_bindings(context, pred, es.take(k)) is Err,
    ensures
        section_bindings(context, pred, es) == section_bindings(context, pred, es.take(k)),
    decreases es.len(),
{
    if k < es.len() {
        assert(es.drop_last().take(k) =~= es.take(k));
        lemma_section_error_stays(context, pred, es.drop_last(), k);
    } else {
        assert(es.take(k) =~= es);
    }
}

pub proof fn lemma_file_error_stays(ss: Seq<SectionView>, k: int)
    requires
        0 <= k <= ss.len(),
        file_bindings(ss.take(k)) is Err,
    ensures
        file_bindings(ss) == file_bindings(ss.take(k)),
    decreases ss.len(),
{
    if k < ss.len() {
        assert(ss.drop_last().take(k) =~= ss.take(k));
        lemma_file_error_stays(ss.drop_last(), k);
    } else {
        assert(ss.take(k) =~= ss);
    }
}

/// A keymap split in two gives the bindings of its first part followed by those of
/// its second part; the first error, reading from the start, is the one reported.
pub proof fn lemma_file_bindings_concat(a: Seq<SectionView>, b: Seq<SectionView>)
    ensures
        file_bindings(a + b) == match file_bindings(a) {
            Err(e) => Err(e),
            Ok(x) => match file_bindings(b) {
                Err(e) => Err(e),
                Ok(y) => Ok(x + y),
            },
        },
    decreases b.len(),
{
    if b.len() == 0 {
        assert(a + b =~= a);
        if let Ok(x) = file_bindings(a) {
            assert(x + Seq::<KeyBindingView<Seq<char>>>::empty() =~= x);
        }
    } else {
        lemma_file_bindings_concat(a, b.drop_last());
        assert((a + b).drop_last() =~= a + b.drop_last());
        assert((a + b).last() == b.last());
        if let Ok(x) = file_bindings(a) {
            if let Ok(y) = file_bindings(b.drop_last()) {
                if let Ok(pred) = section_context(b.last().0) {
                    if let Ok(bs) = section_bindings(b.last().0, pred, b.last().1) {
                        assert(x + y + bs =~= x + (y + bs));
                    }
                }
            }
        }
    }
}

/// What a section's `i`-th binding is made of its `i`-th entry: the section's key
/// context, the entry's action under the section's qualified name, and the
/// keystrokes of the entry's words that parse.
pub open spec fn binding_of_entry(
    context: Seq<char>,
    pred: Option<KeyContextView>,
    e: (Seq<char>, BindingValueView),
    b: KeyBindingView<Seq<char>>,
) -> bool {
    &&& b.key_context == pred
    &&& e.1 matches BindingValueView::Str(name) && b.action == action_name(context, name)
    &&& b.keystrokes == parsed_keystrokes(words(e.0, Separator::WhiteSpace))
}

proof fn lemma_section_entries(context: Seq<char>, pred: Option<KeyContextView>, es: Seq<(Seq<char>, BindingValueView)>)
    ensures
        section_bindings(context, pred, es) matches Ok(bs) ==> bs.len() == es.len() && forall|i: int|
            0 <= i < bs.len() ==> binding_of_entry(context, pred, #[trigger] es[i], bs[i]),
    decreases es.len(),
{
    if es.len() > 0 {
        lemma_section_entries(context, pred, es.drop_last());
        if let Ok(bs) = section_bindings(context, pred, es) {
            if let Ok(prev) = section_bindings(context, pred, es.drop_last()) {
                assert forall|i: int| 0 <= i < bs.len() implies binding_of_entry(context, pred, #[trigger] es[i], bs[i]) by {
                    if i < bs.len() - 1 {
                        assert(bs[i] == prev[i]);
                        assert(es[i] == es.drop_last()[i]);
                    }
                }
            }
        }
    }
}

/// Every binding a section of the keymap file gives carries that section's key
/// context: the section's `i`-th entry gives its `i`-th binding, in the section's
/// context, with the entry's action under the section's qualified name.
pub proof fn lemma_section_bindings_carry_context(s: SectionView)
    ensures
        file_bindings(seq![s]) matches Ok(bs) ==> section_context(s.0) matches Ok(pred) && bs.len() == s.1.len()
            && forall|i: int| 0 <= i < bs.len() ==> binding_of_entry(s.0, pred, #[trigger] s.1[i], bs[i]),
{
    let one = seq![s];
    assert(one.drop_last() =~= Seq::<SectionView>::empty());
    assert(one.last() == s);
    if let Ok(pred) = section_context(s.0) {
        lemma_section_entries(s.0, pred, s.1);
        assert(file_bindings(one.drop_last()) == Ok::<_, KeymapErrorView>(Seq::<KeyBindingView<Seq<char>>>::empty()));
        if let Ok(bs) = section_bindings(s.0, pred, s.1) {
            assert(Seq::<KeyBindingView<Seq<char>>>::empty() + bs =~= bs);
            assert(file_bindings(one) == Ok::<_, KeymapErrorView>(bs));
        } else {
            assert(file_bindings(one) is Err);
        }
    } else {
        assert(file_bindings(one.drop_last()) == Ok::<_, KeymapErrorView>(Seq::<KeyBindingView<Seq<char>>>::empty()));
        assert(file_bindings(one) is Err);
    }
}

/// Parses each word of the keystroke text; words that are no keystroke are skipped.
pub fn parse_keystrokes(text: &String) -> (r: Vec<Keystroke>)
    ensures
        keystroke_views(r@) == parsed_keystrokes(words(text@, Separator::WhiteSpace)),
{
    let chars = str_to_chars(text.as_str());
    let ws = split_words(&chars, Separator::WhiteSpace);
    let ghost wv = views(ws@);
    let mut r: Vec<Keystroke> = Vec::new();
    let mut i: usize = 0;
    while i < ws.len()
        invariant
            wv == views(ws@),
            wv == words(text@, Separator::WhiteSpace),
            i <= ws.len(),
            keystroke_views(r@) == parsed_keystrokes(wv.take(i as int)),
        decreases ws.len() - i,
    {
        let w = crate::text::chars_to_string(&ws[i]);
        proof {
            assert(wv.take(i + 1).drop_last() =~= wv.take(i as int));
            assert(wv.take(i + 1).last() == wv[i as int]);
        }
        match Keystroke::parse(w.as_str()) {
            Ok(k) => {
                let ghost before = r@;
                r.push(k);
                proof {
                    assert(keystroke_views(r@) =~= keystroke_views(before).push(k@));
                }
            },
            Err(_) => {},
        }
        i = i + 1;
    }
    proof {
        assert(wv.take(ws.len() as int) =~= wv);
    }
    r
}

/// `context::name`, or `name` where the context is empty.
pub fn qualified_action_name(context: &String, name: &String) -> (r: String)
    ensures
        r@ == action_name(context@, name@),
{
    if context.as_str().is_empty() {
        name.clone()
    } else {
        let mut r = context.clone();
        string_push(&mut r, ':');
        string_push(&mut r, ':');
        let chars = str_to_chars(name.as_str());
        let mut i: usize = 0;
        let ghost start = r@;
        while i < chars.len()
            invariant
                i <= chars.len(),
                chars@ == name@,
                start == context@ + seq![':', ':'],
                r@ == start + chars@.take(i as int),
            decreases chars.len() - i,
        {
            string_push(&mut r, chars[i]);
            i = i + 1;
            proof {
                assert(start + chars@.take(i as int) =~= (start + chars@.take(i - 1)).push(chars@[i - 1]));
            }
        }
        proof {
            assert(chars@.take(chars.len() as int) =~= chars@);
        }
        r
    }
}

impl KeyBindingsFile {
    /// The key bindings the file gives, named by their qualified action names,
    /// section after section; the first section context or action that is refused
    /// ends parsing with its error.
    pub fn parse(&self) -> (r: Result<KeyBindings<String>, KeymapError>)
        ensures
            match file_bindings(self@) {
                Ok(v) => r matches Ok(k) && k@ == v,
                Err(e) => r matches Err(x) && x@ == e,
            },
    {
        let ghost ss = self@;
        let mut out: Vec<KeyBinding<String>> = Vec::new();
        let mut i: usize = 0;
        proof {
            assert(ss.take(0) =~= Seq::<SectionView>::empty());
            assert(binding_views(out@) =~= Seq::<KeyBindingView<Seq<char>>>::empty());
        }
        while i < self.keybindings.len()
            invariant
                ss == self@,
                i <= self.keybindings.len(),
                file_bindings(ss.take(i as int)) == Ok::<_, KeymapErrorView>(binding_views(out@)),
            decreases self.keybindings.len() - i,
        {
            let section = &self.keybindings[i];
            proof {
                assert(ss.take(i + 1).drop_last() =~= ss.take(i as int));
                assert(ss.take(i + 1).last() == section@);
            }
            let pred: Option<Rc<KeyContext>> = if section.context.as_str().is_empty() {
                None
            } else {
                match KeyContext::parse(section.context.as_str()) {
                    Ok(c) => Some(Rc::new(c)),
                    Err(e) => {
                        proof {
                            lemma_file_error_stays(ss, i + 1);
                        }
                        return Err(e);
                    },
                }
            };
            let ghost predv: Option<KeyContextView> = context_view(pred);
            assert(section_context(section.context@) == Ok::<_, KeymapErrorView>(predv));
            let ghost es = entry_views(section.bindings@);
            let ghost out_start = binding_views(out@);
            let mut j: usize = 0;
            while j < section.bindings.len()
                invariant
                    ss == self@,
                    i < self.keybindings.len(),
                    section == &self.keybindings[i as int],
                    es == entry_views(section.bindings@),
                    file_bindings(ss.take(i as int)) == Ok::<_, KeymapErrorView>(out_start),
                    ss.take(i + 1).drop_last() == ss.take(i as int),
                    ss.take(i + 1).last() == section@,
                    section_context(section.context@) == Ok::<_, KeymapErrorView>(predv),
                    predv == context_view(pred),
                    j <= section.bindings.len(),
                    section_bindings(section.context@, predv, es.take(j as int)) matches Ok(bs)
                        && binding_views(out@) == out_start + bs,
                decreases section.bindings.len() - j,
            {
                let entry = &section.bindings[j];
                proof {
                    assert(es.take(j + 1).drop_last() =~= es.take(j as int));
                    assert(es.take(j + 1).last() == (entry.0@, entry.1@));
                }
                match &entry.1 {
                    BindingValue::Other => {
                        proof {
                            lemma_section_error_stays(section.context@, predv, es, j + 1);
                            assert(es.take(es.len() as int) =~= es);
                            lemma_file_error_stays(ss, i + 1);
                        }
                        return Err(KeymapError::ActionNotString);
                    },
                    BindingValue::Str(name) => {
                        let action = qualified_action_name(&section.context, name);
                        let keystrokes = parse_keystrokes(&entry.0);
                        let key_context = match &pred {
                            Some(c) => Some(rc_clone(c)),
                            None => None,
                        };
                        let b = KeyBinding { action, keystrokes, key_context };
                        let ghost before = out@;
                        out.push(b);
                        proof {
                            assert(binding_views(out@) =~= binding_views(before).push(b@));
                        }
                    },
                }
                j = j + 1;
            }
            proof {
                assert(es.take(es.len() as int) =~= es);
                assert(section@.1 == es);
            }
            i = i + 1;
        }
        proof {
            assert(ss.take(ss.len() as int) =~= ss);
        }
        Ok(KeyBindings(out))
    }
}


/// The modifier flags a terminal key event carries, flag by flag.
#[derive(Clone, Copy, Debug, PartialEq, Eq, Structural)]
pub struct TermModifiers {
    pub shift: bool,
    pub control: bool,
    pub alt: bool,
    pub super_key: bool,
    pub hyper: bool,
    pub meta: bool,
}

impl TermModifiers {
    /// The set holding exactly the given flags.
    pub open spec fn only(shift: bool, control: bool, alt: bool, super_key: bool, hyper: bool, meta: bool) -> TermModifiers {
        TermModifiers { shift, control, alt, super_key, hyper, meta }
    }

    /// Exactly shift is held.
    pub open spec fn is_shift(self) -> bool {
        self == TermModifiers::only(true, false, false, false, false, false)
    }

    /// Exactly control is held.
    pub open spec fn is_control(self) -> bool {
        self == TermModifiers::only(false, true, false, false, false, false)
    }

    /// Exactly alt is held.
    pub open spec fn is_alt(self) -> bool {
        self == TermModifiers::only(false, false, true, false, false, false)
    }

    /// Exactly one of meta, super and hyper is held, and nothing else.
    pub open spec fn is_meta_like(self) -> bool {
        self == TermModifiers::only(false, false, false, false, false, true) || self
            == TermModifiers::only(false, false, false, true, false, false) || self
            == TermModifiers::only(false, false, false, false, true, false)
    }
}

/// The keystroke text of a key event: a prefix for a lone modifier, then the key's name.
pub open spec fn key_event_text(m: TermModifiers, code: Seq<char>) -> Seq<char> {
    (if m.is_shift() {
        seq!['s', 'h', 'i', 'f', 't', '-']
    } else {
        Seq::empty()
    }) + (if m.is_control() {
        seq!['c', 't', 'r', 'l', '-']
    } else {
        Seq::empty()
    }) + (if m.is_alt() {
        seq!['a', 'l', 't', '-']
    } else {
        Seq::empty()
    }) + (if m.is_meta_like() {
        seq!['m', 'e', 't', 'a', '-']
    } else {
        Seq::empty()
    }) + code
}

/// The keystroke text for a terminal key event whose key is named `code`.
pub fn key_event_text_exec(m: &TermModifiers, code: &str) -> (r: String)
    ensures
        r@ == key_event_text(*m, code@),
{
    let mut r = String::new();
    if m.shift && !m.control && !m.alt && !m.super_key && !m.hyper && !m.meta {
        push_chars(&mut r, &vec!['s', 'h', 'i', 'f', 't', '-']);
    }
    if !m.shift && m.control && !m.alt && !m.super_key && !m.hyper && !m.meta {
        push_chars(&mut r, &vec!['c', 't', 'r', 'l', '-']);
    }
    if !m.shift && !m.control && m.alt && !m.super_key && !m.hyper && !m.meta {
        push_chars(&mut r, &vec!['a', 'l', 't', '-']);
    }
    if !m.shift && !m.control && !m.alt && ((m.meta && !m.super_key && !m.hyper) || (!m.meta
        && m.super_key && !m.hyper) || (!m.meta && !m.super_key && m.hyper)) {
        push_chars(&mut r, &vec!['m', 'e', 't', 'a', '-']);
    }
    let cs = str_to_chars(code);
    push_chars(&mut r, &cs);
    proof {
        assert(r@ =~= key_event_text(*m, code@));
    }
    r
}

/// The keystroke read from the pieces `ps`, from `st` on, where the last piece is a
/// plain key and `i` its index.
proof fn lemma_step_last_key(ps: Seq<Seq<char>>, i: int, e: bool, m: Modifiers)
    requires
        i == ps.len() - 1,
        0 <= i,
        !is_modifier_word(ps[i]),
    ensures
        keystroke_step(ps, i, e, (m, None, None)) == Some::<KeystrokeState>(
            (
                if ps[i].len() == 1 && is_ascii_upper(ps[i][0]) {
                    Modifiers { shift: true, ..m }
                } else {
                    m
                },
                Some(ascii_lower_seq(ps[i])),
                Some(
                    if (ps[i].len() == 1 && is_ascii_upper(ps[i][0])) || m.shift {
                        unicode_uppercase(ascii_lower_seq(ps[i]))
                    } else {
                        unicode_lowercase(ascii_lower_seq(ps[i]))
                    },
                ),
            ),
        ),
{
}

/// A key event whose key name is a plain key (not empty, without a dash, no
/// modifier word) reads as that key in lowercase, holding exactly the modifier the
/// event holds alone: shift, control, alt, or meta for any one of meta, super and
/// hyper. With no modifier or several held, none is read, but for the shift that a
/// lone uppercase letter stands for.
pub proof fn lemma_key_event_keystroke(m: TermModifiers, code: Seq<char>)
    requires
        code.len() > 0,
        forall|i: int| 0 <= i < code.len() ==> code[i] != '-',
        !is_modifier_word(code),
    ensures
        parse_keystroke(key_event_text(m, code)) matches Some(k) && k.key == ascii_lower_seq(code)
            && k.modifiers == (Modifiers {
            none: false,
            shift: m.is_shift() || (code.len() == 1 && is_ascii_upper(code[0])),
            control: m.is_control(),
            alt: m.is_alt(),
            meta: m.is_meta_like(),
        }),
{
    let text = key_event_text(m, code);
    let m0 = Modifiers::empty_spec();
    let upper = code.len() == 1 && is_ascii_upper(code[0]);
    lemma_pieces_without_separator(code);
    assert(text.last() == code.last());
    let e = text.len() > 0 && text.last() == '-';
    assert(!e);
    let w: Seq<char> = if m.is_shift() {
        word_shift()
    } else if m.is_control() {
        word_ctrl()
    } else if m.is_alt() {
        word_alt()
    } else {
        word_meta()
    };
    assert(ascii_lower_seq(word_ctrl()) =~= word_ctrl());
    assert(ascii_lower_seq(word_alt()) =~= word_alt());
    assert(ascii_lower_seq(word_shift()) =~= word_shift());
    assert(ascii_lower_seq(word_meta()) =~= word_meta());
    assert(ascii_lower_seq(word_cmd()) =~= word_cmd());
    assert(ascii_lower_seq(word_super()) =~= word_super());
    assert(ascii_lower_seq(word_win()) =~= word_win());
    if m.is_shift() || m.is_control() || m.is_alt() || m.is_meta_like() {
        assert(text =~= w + seq!['-'] + code);
        assert(is_modifier_word(w));
        lemma_modifier_word_one_piece(w);
        lemma_pieces_join(w, code);
        let ps = seq![w, code];
        assert(pieces(text, Separator::Dash) =~= ps);
        let mw = with_modifier(m0, w);
        assert(mw == (Modifiers {
            none: false,
            shift: m.is_shift(),
            control: m.is_control(),
            alt: m.is_alt(),
            meta: m.is_meta_like(),
        }));
        lemma_step_modifier(ps, 0, e, (m0, None, None));
        lemma_step_last_key(ps, 1, e, mw);
    } else {
        assert(text =~= code);
        lemma_step_last_key(seq![code], 0, e, m0);
    }
}

/// The indices, in order, of the bindings whose first keystroke is `k`, among the first `n`.
pub open spec fn matching_bindings<A>(bs: Seq<KeyBindingView<A>>, k: KeystrokeView, n: int) -> Seq<usize>
    decreases n,
{
    if n <= 0 {
        Seq::empty()
    } else {
        let prev = matching_bindings(bs, k, n - 1);
        if bs[n - 1].keystrokes.len() > 0 && bs[n - 1].keystrokes[0] == k {
            prev.push((n - 1) as usize)
        } else {
            prev
        }
    }
}

/// Whether binding `i`, among the first `n`, has `k` as its first keystroke.
pub open spec fn first_keystroke_is<A>(bs: Seq<KeyBindingView<A>>, i: int, k: KeystrokeView, n: int) -> bool {
    &&& 0 <= i < n
    &&& bs[i].keystrokes.len() > 0
    &&& bs[i].keystrokes[0] == k
}

/// A key press selects exactly the bindings whose first keystroke equals it in
/// full (modifiers, key and key character alike), each once, in increasing order.
pub proof fn lemma_matching_is_full_equality<A>(bs: Seq<KeyBindingView<A>>, k: KeystrokeView, n: int)
    requires
        0 <= n <= bs.len(),
        bs.len() <= usize::MAX,
    ensures
        forall|j: int|
            0 <= j < matching_bindings(bs, k, n).len() ==> first_keystroke_is(
                bs,
                #[trigger] matching_bindings(bs, k, n)[j] as int,
                k,
                n,
            ),
        forall|j1: int, j2: int|
            0 <= j1 < j2 < matching_bindings(bs, k, n).len() ==> #[trigger] matching_bindings(bs, k, n)[j1]
                < #[trigger] matching_bindings(bs, k, n)[j2],
        forall|i: int|
            0 <= i < n && #[trigger] bs[i].keystrokes.len() > 0 && bs[i].keystrokes[0] == k ==> matching_bindings(
                bs,
                k,
                n,
            ).contains(i as usize),
    decreases n,
{
    if n > 0 {
        lemma_matching_is_full_equality(bs, k, n - 1);
        let prev = matching_bindings(bs, k, n - 1);
        let cur = matching_bindings(bs, k, n);
        if bs[n - 1].keystrokes.len() > 0 && bs[n - 1].keystrokes[0] == k {
            assert(cur == prev.push((n - 1) as usize));
            assert(cur[prev.len() as int] == (n - 1) as usize);
            assert forall|j: int| 0 <= j < cur.len() implies first_keystroke_is(bs, #[trigger] cur[j] as int, k, n) by {
                if j < prev.len() {
                    assert(cur[j] == prev[j]);
                    assert(first_keystroke_is(bs, prev[j] as int, k, n - 1));
                }
            }
            assert forall|j1: int, j2: int| 0 <= j1 < j2 < cur.len() implies #[trigger] cur[j1] < #[trigger] cur[j2] by {
                assert(cur[j1] == prev[j1]);
                assert(first_keystroke_is(bs, prev[j1] as int, k, n - 1));
                if j2 < prev.len() {
                    assert(cur[j2] == prev[j2]);
                }
            }
            assert forall|i: int|
                0 <= i < n && #[trigger] bs[i].keystrokes.len() > 0 && bs[i].keystrokes[0] == k implies cur.contains(
                i as usize,
            ) by {
                if i < n - 1 {
                    let j = choose|j: int| 0 <= j < prev.len() && prev[j] == i as usize;
                    assert(cur[j] == prev[j]);
                }
            }
        } else {
            assert(cur == prev);
            assert forall|i: int|
                0 <= i < n && #[trigger] bs[i].keystrokes.len() > 0 && bs[i].keystrokes[0] == k implies cur.contains(
                i as usize,
            ) by {
                assert(i < n - 1);
            }
        }
    }
}

impl<A: View> KeyBindings<A> {
    /// The indices, in order, of the bindings whose first keystroke is `k`.
    pub fn matching(&self, k: &Keystroke) -> (r: Vec<usize>)
        ensures
            r@ == matching_bindings(self@, k@, self@.len() as int),
    {
        let mut r: Vec<usize> = Vec::new();
        let mut i: usize = 0;
        while i < self.0.len()
            invariant
                i <= self.0.len(),
                self@.len() == self.0.len(),
                r@ == matching_bindings(self@, k@, i as int),
            decreases self.0.len() - i,
        {
            let b = &self.0[i];
            assert(b@ == self@[i as int]);
            if b.keystrokes.len() > 0 && b.keystrokes[0].same_as(k) {
                r.push(i);
            }
            i = i + 1;
        }
        r
    }

    /// What a terminal key event selects: the keystroke it denotes and the bindings
    /// whose first keystroke it is; `None` where its text is no keystroke.
    pub fn resolve_key_event(&self, m: &TermModifiers, code: &str) -> (r: Option<(Keystroke, Vec<usize>)>)
        ensures
            match parse_keystroke(key_event_text(*m, code@)) {
                None => r is None,
                Some(k) => r matches Some((ks, idx)) && ks@ == k && idx@ == matching_bindings(
                    self@,
                    k,
                    self@.len() as int,
                ),
            },
    {
        let text = key_event_text_exec(m, code);
        match Keystroke::parse(text.as_str()) {
            Ok(ks) => {
                let idx = self.matching(&ks);
                Some((ks, idx))
            },
            Err(_) => None,
        }
    }
}

} // verus!
