//! Keystrokes such as `ctrl-shift-a`, their modifiers and their parser.
use vstd::prelude::*;

use crate::error::{KeymapError, KeymapErrorView};
use crate::text::{
    ascii_lower, ascii_lower_seq, ascii_upper, ascii_upper_seq, is_ascii_chars_seq, chars_eq_ignore_ascii_case, chars_to_ascii_lower, chars_to_string, eq_ignore_ascii_case,
    is_ascii_upper, is_single_byte, lemma_pieces_nonempty, pieces, split_pieces, str_to_chars, str_to_lowercase, str_to_uppercase,
    string_is_single_byte, unicode_lowercase, unicode_uppercase, views, Separator,
};

verus! {

/// The modifier keys held during a keystroke.
#[derive(Clone, Copy, Debug, PartialEq, Eq, Structural)]
pub struct Modifiers {
    pub none: bool,
    pub shift: bool,
    pub control: bool,
    pub alt: bool,
    pub meta: bool,
}

impl Modifiers {
    pub open spec fn empty_spec() -> Modifiers {
        Modifiers { none: false, shift: false, control: false, alt: false, meta: false }
    }

    /// No modifier.
    pub fn empty() -> (m: Modifiers)
        ensures
            m == Modifiers::empty_spec(),
    {
        Modifiers { none: false, shift: false, control: false, alt: false, meta: false }
    }

    /// The flags as bits: none 1, shift 2, control 4, alt 8, meta 16.
    pub open spec fn bits_spec(self) -> u8 {
        ((if self.none { 1u8 } else { 0u8 }) + (if self.shift { 2u8 } else { 0u8 }) + (if self.control {
            4u8
        } else {
            0u8
        }) + (if self.alt { 8u8 } else { 0u8 }) + (if self.meta { 16u8 } else { 0u8 })) as u8
    }

    pub fn bits(&self) -> (b: u8)
        ensures
            b == self.bits_spec(),
    {
        let mut b: u8 = 0;
        if self.none {
            b = b + 1;
        }
        if self.shift {
            b = b + 2;
        }
        if self.control {
            b = b + 4;
        }
        if self.alt {
            b = b + 8;
        }
        if self.meta {
            b = b + 16;
        }
        b
    }

    pub fn contains_shift(&self) -> (r: bool)
        ensures
            r == self.shift,
    {
        self.shift
    }
}

/// The mathematical value of a `Keystroke`.
pub struct KeystrokeView {
    pub modifiers: Modifiers,
    pub key: Seq<char>,
    pub key_char: Option<Seq<char>>,
}

/// One key press with its modifiers; `key_char` is the one ASCII character it types, if any.
#[derive(Debug, Clone, PartialEq)]
pub struct Keystroke {
    pub modifiers: Modifiers,
    pub key: String,
    pub key_char: Option<String>,
}

impl View for Keystroke {
    type V = KeystrokeView;

    open spec fn view(&self) -> KeystrokeView {
        KeystrokeView {
            modifiers: self.modifiers,
            key: self.key@,
            key_char: match self.key_char {
                Some(s) => Some(s@),
                None => None,
            },
        }
    }
}

pub open spec fn word_ctrl() -> Seq<char> {
    seq!['c', 't', 'r', 'l']
}

pub open spec fn word_alt() -> Seq<char> {
    seq!['a', 'l', 't']
}

pub open spec fn word_shift() -> Seq<char> {
    seq!['s', 'h', 'i', 'f', 't']
}

pub open spec fn word_meta() -> Seq<char> {
    seq!['m', 'e', 't', 'a']
}

pub open spec fn word_cmd() -> Seq<char> {
    seq!['c', 'm', 'd']
}

pub open spec fn word_super() -> Seq<char> {
    seq!['s', 'u', 'p', 'e', 'r']
}

pub open spec fn word_win() -> Seq<char> {
    seq!['w', 'i', 'n']
}

/// Whether a piece names the meta modifier (`meta`, `cmd`, `super` or `win`, in any ASCII case).
pub open spec fn is_meta_word(p: Seq<char>) -> bool {
    eq_ignore_ascii_case(p, word_meta()) || eq_ignore_ascii_case(p, word_cmd())
        || eq_ignore_ascii_case(p, word_super()) || eq_ignore_ascii_case(p, word_win())
}

/// The state of the parser: modifiers seen, key and key character found so far.
pub type KeystrokeState = (Modifiers, Option<Seq<char>>, Option<Seq<char>>);

/// The parser's state after reading the dash-separated `ps[i..]`, starting from `st`;
/// `None` where the text is refused.
pub open spec fn keystroke_step(ps: Seq<Seq<char>>, i: int, ends_with_dash: bool, st: KeystrokeState) -> Option<
    KeystrokeState,
>
    decreases ps.len() - i,
{
    if i < 0 || i >= ps.len() {
        Some(st)
    } else {
        let p = ps[i];
        let (m, key, key_char) = st;
        if eq_ignore_ascii_case(p, word_ctrl()) {
            keystroke_step(ps, i + 1, ends_with_dash, (Modifiers { control: true, ..m }, key, key_char))
        } else if eq_ignore_ascii_case(p, word_alt()) {
            keystroke_step(ps, i + 1, ends_with_dash, (Modifiers { alt: true, ..m }, key, key_char))
        } else if eq_ignore_ascii_case(p, word_shift()) {
            keystroke_step(ps, i + 1, ends_with_dash, (Modifiers { shift: true, ..m }, key, key_char))
        } else if is_meta_word(p) {
            keystroke_step(ps, i + 1, ends_with_dash, (Modifiers { meta: true, ..m }, key, key_char))
        } else if i + 1 < ps.len() {
            let next = ps[i + 1];
            if next.len() == 0 && ends_with_dash {
                Some((m, Some(seq!['-']), key_char))
            } else if next.len() > 1 && next[0] == '>' {
                keystroke_step(ps, i + 2, ends_with_dash, (m, Some(p), key_char))
            } else {
                None
            }
        } else {
            let m2 = if p.len() == 1 && is_ascii_upper(p[0]) {
                Modifiers { shift: true, ..m }
            } else {
                m
            };
            let k = ascii_lower_seq(p);
            let kc = if m2.shift {
                unicode_uppercase(k)
            } else {
                unicode_lowercase(k)
            };
            Some((m2, Some(k), Some(kc)))
        }
    }
}

/// The keystroke that `source` denotes, or `None` where it denotes none.
pub open spec fn parse_keystroke(source: Seq<char>) -> Option<KeystrokeView> {
    let ends_with_dash = source.len() > 0 && source.last() == '-';
    match keystroke_step(
        pieces(source, Separator::Dash),
        0,
        ends_with_dash,
        (Modifiers::empty_spec(), None, None),
    ) {
        None => None,
        Some((m, key, key_char)) => match key {
            None => None,
            Some(k) => Some(
                KeystrokeView {
                    modifiers: m,
                    key: k,
                    key_char: match key_char {
                        Some(c) => if is_single_byte(c) {
                            Some(c)
                        } else {
                            None
                        },
                        None => None,
                    },
                },
            ),
        },
    }
}

fn is_meta_piece(p: &Vec<char>) -> (r: bool)
    ensures
        r == is_meta_word(p@),
{
    chars_eq_ignore_ascii_case(p, &vec!['m', 'e', 't', 'a'])
        || chars_eq_ignore_ascii_case(p, &vec!['c', 'm', 'd'])
        || chars_eq_ignore_ascii_case(p, &vec!['s', 'u', 'p', 'e', 'r'])
        || chars_eq_ignore_ascii_case(p, &vec!['w', 'i', 'n'])
}

impl Keystroke {
    /// Parses text such as `ctrl-shift-a`, `alt--` or `A`. The key character of an
    /// ASCII key is the key in ASCII uppercase where shift is held, as it is elsewhere.
    pub fn parse(source: &str) -> (r: Result<Keystroke, KeymapError>)
        ensures
            match parse_keystroke(source@) {
                Some(v) => r matches Ok(k) && k@ == v,
                None => r matches Err(e) && e@ == KeymapErrorView::InvalidKeystroke(source@),
            },
            r matches Ok(k) ==> (k@.key_char matches Some(c) ==> (is_ascii_chars_seq(k@.key) ==> c == (
            if k@.modifiers.shift {
                ascii_upper_seq(k@.key)
            } else {
                k@.key
            }))),
            r matches Ok(k) ==> (!source@.contains('>') && pieces(source@, Separator::Dash).last().len() > 0
                && is_ascii_chars_seq(k@.key) ==> k@.key_char == (if k@.key.len() == 1 {
                Some(
                    if k@.modifiers.shift {
                        ascii_upper_seq(k@.key)
                    } else {
                        k@.key
                    },
                )
            } else {
                None::<Seq<char>>
            })),
    {
        let src = str_to_chars(source);
        let ps = split_pieces(&src, Separator::Dash);
        let ends_with_dash = src.len() > 0 && src[src.len() - 1] == '-';
        let ghost pv = views(ps@);
        let ghost target = keystroke_step(pv, 0, ends_with_dash, (Modifiers::empty_spec(), None, None));
        let mut m = Modifiers::empty();
        let mut key: Option<Vec<char>> = None;
        let mut key_char: Option<String> = None;
        let mut i: usize = 0;
        while i < ps.len()
            invariant
                pv == views(ps@),
                pv == pieces(src@, Separator::Dash),
                src@ == source@,
                ends_with_dash == (src@.len() > 0 && src@.last() == '-'),
                target == keystroke_step(pv, 0, ends_with_dash, (Modifiers::empty_spec(), None, None)),
                i <= ps.len(),
                key_char is None,
                key is Some ==> src@.contains('>'),
                target == keystroke_step(pv, i as int, ends_with_dash, (m, opt_view(key), opt_string_view(key_char))),
            decreases ps.len() - i,
        {
            let p = &ps[i];
            assert(p@ == pv[i as int]);
            if chars_eq_ignore_ascii_case(p, &vec!['c', 't', 'r', 'l']) {
                m = Modifiers { control: true, ..m };
                i = i + 1;
                continue;
            }
            if chars_eq_ignore_ascii_case(p, &vec!['a', 'l', 't']) {
                m = Modifiers { alt: true, ..m };
                i = i + 1;
                continue;
            }
            if chars_eq_ignore_ascii_case(p, &vec!['s', 'h', 'i', 'f', 't']) {
                m = Modifiers { shift: true, ..m };
                i = i + 1;
                continue;
            }
            if is_meta_piece(p) {
                m = Modifiers { meta: true, ..m };
                i = i + 1;
                continue;
            }
            if i + 1 < ps.len() {
                let next = &ps[i + 1];
                assert(next@ == pv[i + 1]);
                if next.len() == 0 && ends_with_dash {
                    let dash = vec!['-'];
                    assert(dash@ =~= seq!['-']);
                    assert(pieces(src@, Separator::Dash).last().len() == 0);
                    return Ok(Self::finish(m, Some(dash), key_char));
                } else if next.len() > 1 && next[0] == '>' {
                    proof {
                        lemma_pieces_chars(src@, Separator::Dash);
                        assert(src@.contains(pv[i + 1][0]));
                    }
                    key = Some(p.clone());
                    i = i + 2;
                    continue;
                } else {
                    return Err(KeymapError::InvalidKeystroke(chars_to_string(&src)));
                }
            }
            if p.len() == 1 && 'A' <= p[0] && p[0] <= 'Z' {
                m = Modifiers { shift: true, ..m };
            }
            let k = chars_to_ascii_lower(p);
            let ks = chars_to_string(&k);
            let kc = if m.shift {
                str_to_uppercase(ks.as_str())
            } else {
                str_to_lowercase(ks.as_str())
            };
            proof {
                if is_ascii_chars_seq(k@) {
                    assert(ascii_lower_seq(k@) =~= k@) by {
                        assert(k@ == ascii_lower_seq(p@));
                        lemma_ascii_lower_idempotent(p@);
                    }
                    let kcv = if m.shift {
                        ascii_upper_seq(k@)
                    } else {
                        k@
                    };
                    assert(kc@ == kcv);
                    assert(kcv.len() == k@.len());
                    if k@.len() == 1 {
                        assert((k@[0] as u32) < 128);
                        assert(kcv[0] == (if m.shift { ascii_upper(k@[0]) } else { k@[0] }));
                        assert((kcv[0] as u32) < 128);
                    }
                }
            }
            return Self::finish_checked(m, Some(k), Some(kc), &src);
        }
        Self::finish_checked(m, key, key_char, &src)
    }

    fn finish(m: Modifiers, key: Option<Vec<char>>, key_char: Option<String>) -> (r: Keystroke)
        requires
            key is Some,
        ensures
            r@ == (KeystrokeView {
                modifiers: m,
                key: key.unwrap()@,
                key_char: match key_char {
                    Some(c) => if is_single_byte(c@) {
                        Some(c@)
                    } else {
                        None
                    },
                    None => None,
                },
            }),
    {
        let k = match key {
            Some(k) => k,
            None => Vec::new(),
        };
        let kc = match key_char {
            Some(c) => if string_is_single_byte(&c) {
                Some(c)
            } else {
                None
            },
            None => None,
        };
        Keystroke { modifiers: m, key: chars_to_string(&k), key_char: kc }
    }

    fn finish_checked(
        m: Modifiers,
        key: Option<Vec<char>>,
        key_char: Option<String>,
        src: &Vec<char>,
    ) -> (r: Result<Keystroke, KeymapError>)
        ensures
            match key {
                Some(k) => r matches Ok(ks) && ks@ == (KeystrokeView {
                    modifiers: m,
                    key: k@,
                    key_char: match key_char {
                        Some(c) => if is_single_byte(c@) {
                            Some(c@)
                        } else {
                            None
                        },
                        None => None,
                    },
                }),
                None => r matches Err(e) && e@ == KeymapErrorView::InvalidKeystroke(src@),
            },
    {
        if key.is_some() {
            Ok(Self::finish(m, key, key_char))
        } else {
            Err(KeymapError::InvalidKeystroke(chars_to_string(src)))
        }
    }

    /// Whether two keystrokes are the same.
    pub fn same_as(&self, other: &Keystroke) -> (r: bool)
        ensures
            r == (self@ == other@),
    {
        if self.modifiers != other.modifiers || self.key != other.key {
            return false;
        }
        match (&self.key_char, &other.key_char) {
            (Some(a), Some(b)) => *a == *b,
            (None, None) => true,
            _ => false,
        }
    }
}

pub proof fn lemma_pieces_without_separator(s: Seq<char>)
    requires
        forall|i: int| 0 <= i < s.len() ==> s[i] != '-',
    ensures
        pieces(s, Separator::Dash) == seq![s],
    decreases s.len(),
{
    if s.len() > 0 {
        lemma_pieces_without_separator(s.drop_last());
        assert(s.drop_last().push(s.last()) =~= s);
        assert(seq![s.drop_last()].update(0, s.drop_last().push(s.last())) =~= seq![s]);
    } else {
        assert(s =~= Seq::<char>::empty());
    }
}

/// An uppercase letter stands for the same keystroke as `shift-` and the letter in
/// lowercase.
pub proof fn lemma_uppercase_is_shift(c: char)
    requires
        is_ascii_upper(c),
    ensures
        parse_keystroke(seq![c]) == parse_keystroke(seq!['s', 'h', 'i', 'f', 't', '-', ascii_lower(c)]),
{
    let lc = ascii_lower(c);
    let s1 = seq![c];
    let s2 = seq!['s', 'h', 'i', 'f', 't', '-', lc];
    lemma_pieces_without_separator(s1);
    assert(pieces(s2, Separator::Dash) =~= seq![word_shift(), seq![lc]]) by {
        reveal_with_fuel(pieces, 8);
        assert(s2.drop_last() =~= seq!['s', 'h', 'i', 'f', 't', '-']);
        assert(s2.drop_last().drop_last() =~= word_shift());
        lemma_pieces_without_separator(word_shift());
        assert(seq![word_shift()].push(Seq::<char>::empty()).update(1, Seq::<char>::empty().push(lc))
            =~= seq![word_shift(), seq![lc]]);
    }
    assert(ascii_lower_seq(s1) =~= seq![lc]);
    assert(ascii_lower_seq(seq![lc]) =~= seq![lc]);
    assert(ascii_lower_seq(word_shift()) =~= word_shift());
    assert(!eq_ignore_ascii_case(s1, word_ctrl()));
    assert(!eq_ignore_ascii_case(s1, word_alt()));
    assert(!eq_ignore_ascii_case(s1, word_shift()));
    assert(!is_meta_word(s1));
    assert(!eq_ignore_ascii_case(seq![lc], word_ctrl()));
    assert(!eq_ignore_ascii_case(seq![lc], word_alt()));
    assert(!eq_ignore_ascii_case(seq![lc], word_shift()));
    assert(!is_meta_word(seq![lc]));
    assert(eq_ignore_ascii_case(word_shift(), word_shift()));
    let ps2 = seq![word_shift(), seq![lc]];
    let m1 = Modifiers { shift: true, ..Modifiers::empty_spec() };
    assert(keystroke_step(ps2, 1, false, (m1, None, None)) == Some::<KeystrokeState>(
        (m1, Some(seq![lc]), Some(unicode_uppercase(seq![lc]))),
    ));
    assert(keystroke_step(seq![s1], 0, false, (Modifiers::empty_spec(), None, None)) == Some::<KeystrokeState>(
        (m1, Some(seq![lc]), Some(unicode_uppercase(seq![lc]))),
    ));
}

/// A named key (a key of other than one character) is read case-insensitively:
/// keys that differ in ASCII case only stand for the same keystroke.
pub proof fn lemma_named_key_case_insensitive(p: Seq<char>, q: Seq<char>)
    requires
        forall|i: int| 0 <= i < p.len() ==> p[i] != '-',
        forall|i: int| 0 <= i < q.len() ==> q[i] != '-',
        p.len() != 1,
        ascii_lower_seq(p) == ascii_lower_seq(q),
    ensures
        parse_keystroke(p) == parse_keystroke(q),
{
    lemma_pieces_without_separator(p);
    lemma_pieces_without_separator(q);
    assert(ascii_lower_seq(p).len() == p.len());
    assert(q.len() == p.len());
    assert(eq_ignore_ascii_case(p, word_ctrl()) == eq_ignore_ascii_case(q, word_ctrl()));
    if p.len() > 0 {
        assert(p.last() != '-');
        assert(q.last() != '-');
    }
    let st = (Modifiers::empty_spec(), None::<Seq<char>>, None::<Seq<char>>);
    assert(seq![p][0] == p && seq![q][0] == q);
    assert(is_meta_word(p) == is_meta_word(q));
    assert(eq_ignore_ascii_case(p, word_alt()) == eq_ignore_ascii_case(q, word_alt()));
    assert(eq_ignore_ascii_case(p, word_shift()) == eq_ignore_ascii_case(q, word_shift()));
    assert(keystroke_step(seq![p], 0, false, st) == keystroke_step(seq![q], 0, false, st)) by {
        reveal_with_fuel(keystroke_step, 2);
    }
}

/// Whether a piece names a modifier: `ctrl`, `alt`, `shift`, `meta`, `cmd`, `super`
/// or `win`, in any ASCII case.
pub open spec fn is_modifier_word(p: Seq<char>) -> bool {
    eq_ignore_ascii_case(p, word_ctrl()) || eq_ignore_ascii_case(p, word_alt()) || eq_ignore_ascii_case(
        p,
        word_shift(),
    ) || is_meta_word(p)
}

/// The modifiers after reading the piece `p`: the flag that `p` names is set.
pub open spec fn with_modifier(m: Modifiers, p: Seq<char>) -> Modifiers {
    if eq_ignore_ascii_case(p, word_ctrl()) {
        Modifiers { control: true, ..m }
    } else if eq_ignore_ascii_case(p, word_alt()) {
        Modifiers { alt: true, ..m }
    } else if eq_ignore_ascii_case(p, word_shift()) {
        Modifiers { shift: true, ..m }
    } else if is_meta_word(p) {
        Modifiers { meta: true, ..m }
    } else {
        m
    }
}

/// Whether some piece after the first starts with `>` and has more characters: the
/// form that names a key verbatim.
pub open spec fn has_verbatim_marker(ps: Seq<Seq<char>>) -> bool {
    exists|j: int| 0 <= j < ps.len() && (#[trigger] ps[j]).len() > 1 && ps[j][0] == '>'
}

proof fn lemma_ascii_lower_idempotent(s: Seq<char>)
    ensures
        ascii_lower_seq(ascii_lower_seq(s)) == ascii_lower_seq(s),
{
    assert(ascii_lower_seq(ascii_lower_seq(s)) =~= ascii_lower_seq(s));
}

proof fn lemma_lower_word_has_no_dash(p: Seq<char>, w: Seq<char>)
    requires
        eq_ignore_ascii_case(p, w),
        forall|i: int| 0 <= i < w.len() ==> 'a' <= #[trigger] w[i] <= 'z',
    ensures
        forall|i: int| 0 <= i < p.len() ==> p[i] != '-',
{
    assert(ascii_lower_seq(p).len() == p.len());
    assert(ascii_lower_seq(w).len() == w.len());
    assert forall|i: int| 0 <= i < p.len() implies p[i] != '-' by {
        assert(ascii_lower_seq(p)[i] == ascii_lower(p[i]));
        assert(ascii_lower_seq(w)[i] == ascii_lower(w[i]));
        assert('a' <= w[i] <= 'z');
    }
}

/// A modifier word holds no dash, so it is one piece of its own.
pub proof fn lemma_modifier_word_one_piece(p: Seq<char>)
    requires
        is_modifier_word(p),
    ensures
        pieces(p, Separator::Dash) == seq![p],
{
    assert(forall|i: int| 0 <= i < word_ctrl().len() ==> 'a' <= #[trigger] word_ctrl()[i] <= 'z');
    assert(forall|i: int| 0 <= i < word_alt().len() ==> 'a' <= #[trigger] word_alt()[i] <= 'z');
    assert(forall|i: int| 0 <= i < word_shift().len() ==> 'a' <= #[trigger] word_shift()[i] <= 'z');
    assert(forall|i: int| 0 <= i < word_meta().len() ==> 'a' <= #[trigger] word_meta()[i] <= 'z');
    assert(forall|i: int| 0 <= i < word_cmd().len() ==> 'a' <= #[trigger] word_cmd()[i] <= 'z');
    assert(forall|i: int| 0 <= i < word_super().len() ==> 'a' <= #[trigger] word_super()[i] <= 'z');
    assert(forall|i: int| 0 <= i < word_win().len() ==> 'a' <= #[trigger] word_win()[i] <= 'z');
    if eq_ignore_ascii_case(p, word_ctrl()) {
        lemma_lower_word_has_no_dash(p, word_ctrl());
    } else if eq_ignore_ascii_case(p, word_alt()) {
        lemma_lower_word_has_no_dash(p, word_alt());
    } else if eq_ignore_ascii_case(p, word_shift()) {
        lemma_lower_word_has_no_dash(p, word_shift());
    } else if eq_ignore_ascii_case(p, word_meta()) {
        lemma_lower_word_has_no_dash(p, word_meta());
    } else if eq_ignore_ascii_case(p, word_cmd()) {
        lemma_lower_word_has_no_dash(p, word_cmd());
    } else if eq_ignore_ascii_case(p, word_super()) {
        lemma_lower_word_has_no_dash(p, word_super());
    } else {
        lemma_lower_word_has_no_dash(p, word_win());
    }
    lemma_pieces_without_separator(p);
}

/// Text joined at a dash is cut into the pieces of each side.
pub proof fn lemma_pieces_join(a: Seq<char>, b: Seq<char>)
    ensures
        pieces(a + seq!['-'] + b, Separator::Dash) == pieces(a, Separator::Dash) + pieces(b, Separator::Dash),
    decreases b.len(),
{
    let s = a + seq!['-'] + b;
    if b.len() == 0 {
        assert(s.drop_last() =~= a);
        assert(pieces(a, Separator::Dash).push(Seq::<char>::empty()) =~= pieces(a, Separator::Dash) + seq![
            Seq::<char>::empty(),
        ]);
    } else {
        lemma_pieces_join(a, b.drop_last());
        assert(s.drop_last() =~= a + seq!['-'] + b.drop_last());
        assert(s.last() == b.last());
        lemma_pieces_nonempty(b.drop_last(), Separator::Dash);
        let pa = pieces(a, Separator::Dash);
        let q = pieces(b.drop_last(), Separator::Dash);
        if b.last() == '-' {
            assert((pa + q).push(Seq::<char>::empty()) =~= pa + q.push(Seq::<char>::empty()));
        } else {
            assert((pa + q).update((pa + q).len() - 1, (pa + q).last().push(b.last())) =~= pa + q.update(
                q.len() - 1,
                q.last().push(b.last()),
            ));
        }
    }
}

/// The parser reads the pieces after a prefix as it reads them alone.
proof fn lemma_step_after_prefix(
    x: Seq<Seq<char>>,
    rest: Seq<Seq<char>>,
    j: int,
    e: bool,
    st: KeystrokeState,
)
    requires
        0 <= j,
    ensures
        keystroke_step(x + rest, x.len() + j, e, st) == keystroke_step(rest, j, e, st),
    decreases rest.len() - j,
{
    let ps = x + rest;
    if j < rest.len() {
        assert(ps[x.len() + j] == rest[j]);
        if j + 1 < rest.len() {
            assert(ps[x.len() + j + 1] == rest[j + 1]);
        }
        let (m, key, key_char) = st;
        let p = rest[j];
        lemma_step_after_prefix(x, rest, j + 1, e, (Modifiers { control: true, ..m }, key, key_char));
        lemma_step_after_prefix(x, rest, j + 1, e, (Modifiers { alt: true, ..m }, key, key_char));
        lemma_step_after_prefix(x, rest, j + 1, e, (Modifiers { shift: true, ..m }, key, key_char));
        lemma_step_after_prefix(x, rest, j + 1, e, (Modifiers { meta: true, ..m }, key, key_char));
        if j + 2 <= rest.len() {
            lemma_step_after_prefix(x, rest, j + 2, e, (m, Some(p), key_char));
            assert(x.len() + j + 2 == x.len() + (j + 2));
        }
        assert(x.len() + j + 1 == x.len() + (j + 1));
    }
}

/// Reading a modifier word sets its flag and goes on with the next piece.
pub proof fn lemma_step_modifier(ps: Seq<Seq<char>>, i: int, e: bool, st: KeystrokeState)
    requires
        0 <= i < ps.len(),
        is_modifier_word(ps[i]),
    ensures
        keystroke_step(ps, i, e, st) == keystroke_step(ps, i + 1, e, (with_modifier(st.0, ps[i]), st.1, st.2)),
{
}

proof fn lemma_ends_with_dash_join(a: Seq<char>, k: Seq<char>)
    ensures
        ((a + seq!['-'] + k).len() > 0 && (a + seq!['-'] + k).last() == '-') == (k.len() == 0 || k.last()
            == '-'),
{
    if k.len() == 0 {
        assert((a + seq!['-'] + k).last() == '-');
    } else {
        assert((a + seq!['-'] + k).last() == k.last());
    }
}

/// The order of two modifiers, and a modifier said twice, do not change the
/// keystroke: `m1-m2-k` is `m2-m1-k`, and `m1-m1-k` is `m1-k`.
pub proof fn lemma_modifier_order_and_repetition(m1: Seq<char>, m2: Seq<char>, k: Seq<char>)
    requires
        is_modifier_word(m1),
        is_modifier_word(m2),
    ensures
        parse_keystroke(m1 + seq!['-'] + m2 + seq!['-'] + k) == parse_keystroke(
            m2 + seq!['-'] + m1 + seq!['-'] + k,
        ),
        parse_keystroke(m1 + seq!['-'] + m1 + seq!['-'] + k) == parse_keystroke(m1 + seq!['-'] + k),
{
    let d = seq!['-'];
    let s12 = m1 + d + m2 + d + k;
    let s21 = m2 + d + m1 + d + k;
    let s11 = m1 + d + m1 + d + k;
    let s1 = m1 + d + k;
    let t1 = m1 + d + k;
    let t2 = m2 + d + k;
    assert(s12 =~= m1 + d + t2);
    assert(s21 =~= m2 + d + t1);
    assert(s11 =~= m1 + d + t1);
    lemma_modifier_word_one_piece(m1);
    lemma_modifier_word_one_piece(m2);
    let pk = pieces(k, Separator::Dash);
    lemma_pieces_join(m1, t2);
    lemma_pieces_join(m2, k);
    lemma_pieces_join(m2, t1);
    lemma_pieces_join(m1, t1);
    lemma_pieces_join(m1, k);
    let ps12 = seq![m1, m2] + pk;
    let ps21 = seq![m2, m1] + pk;
    let ps11 = seq![m1, m1] + pk;
    let ps1 = seq![m1] + pk;
    assert(pieces(s12, Separator::Dash) =~= ps12);
    assert(pieces(s21, Separator::Dash) =~= ps21);
    assert(pieces(s11, Separator::Dash) =~= ps11);
    assert(pieces(s1, Separator::Dash) =~= ps1);
    lemma_ends_with_dash_join(m1, t2);
    lemma_ends_with_dash_join(m2, t1);
    lemma_ends_with_dash_join(m1, t1);
    lemma_ends_with_dash_join(m1, k);
    lemma_ends_with_dash_join(m2, k);
    let e = k.len() == 0 || k.last() == '-';
    let m0 = Modifiers::empty_spec();
    let st0 = (m0, None::<Seq<char>>, None::<Seq<char>>);
    let a = with_modifier(m0, m1);
    let b = with_modifier(m0, m2);
    let ab = with_modifier(a, m2);
    let ba = with_modifier(b, m1);
    assert(ab == ba);
    assert(with_modifier(a, m1) == a);
    lemma_step_modifier(ps12, 0, e, st0);
    lemma_step_modifier(ps12, 1, e, (a, None, None));
    lemma_step_modifier(ps21, 0, e, st0);
    lemma_step_modifier(ps21, 1, e, (b, None, None));
    lemma_step_modifier(ps11, 0, e, st0);
    lemma_step_modifier(ps11, 1, e, (a, None, None));
    lemma_step_modifier(ps1, 0, e, st0);
    lemma_step_after_prefix(seq![m1, m2], pk, 0, e, (ab, None, None));
    lemma_step_after_prefix(seq![m2, m1], pk, 0, e, (ab, None, None));
    lemma_step_after_prefix(seq![m1, m1], pk, 0, e, (a, None, None));
    lemma_step_after_prefix(seq![m1], pk, 0, e, (a, None, None));
}

/// A dash after a modifier is the dash key: `m--` is the key `-` with the
/// modifier `m` and no key character.
pub proof fn lemma_dash_key(w: Seq<char>)
    requires
        is_modifier_word(w),
    ensures
        parse_keystroke(w + seq!['-', '-']) == Some(
            KeystrokeView {
                modifiers: with_modifier(Modifiers::empty_spec(), w),
                key: seq!['-'],
                key_char: None,
            },
        ),
{
    let text = w + seq!['-', '-'];
    let d = seq!['-'];
    let empty = Seq::<char>::empty();
    assert(text =~= w + d + d);
    lemma_modifier_word_one_piece(w);
    lemma_pieces_join(w, d);
    assert(d.drop_last() =~= empty);
    assert(d.last() == '-');
    assert(pieces(empty, Separator::Dash) == seq![empty]);
    assert(pieces(d, Separator::Dash) == pieces(empty, Separator::Dash).push(empty));
    assert(pieces(d, Separator::Dash) =~= seq![empty, empty]);
    let ps = seq![w, empty, empty];
    assert(pieces(text, Separator::Dash) =~= ps);
    assert(text.last() == '-');
    let m = with_modifier(Modifiers::empty_spec(), w);
    lemma_step_modifier(ps, 0, true, (Modifiers::empty_spec(), None, None));
    assert(ascii_lower_seq(empty) =~= empty);
    assert(!is_modifier_word(empty));
    assert(keystroke_step(ps, 1, true, (m, None, None)) == Some::<KeystrokeState>((m, Some(d), None)));
}

/// Every piece ASCII-lowercased.
pub open spec fn lower_pieces(ps: Seq<Seq<char>>) -> Seq<Seq<char>> {
    ps.map_values(|p: Seq<char>| ascii_lower_seq(p))
}

proof fn lemma_ascii_lower_char(c: char)
    ensures
        ascii_lower(c) == '-' <==> c == '-',
        ascii_lower(c) == '>' <==> c == '>',
        !is_ascii_upper(ascii_lower(c)),
{
}

/// Every character of every piece is a character of the text.
pub proof fn lemma_pieces_chars(s: Seq<char>, sep: Separator)
    ensures
        forall|j: int, k: int|
            0 <= j < pieces(s, sep).len() && 0 <= k < pieces(s, sep)[j].len() ==> s.contains(
                #[trigger] pieces(s, sep)[j][k],
            ),
    decreases s.len(),
{
    if s.len() > 0 {
        let t = s.drop_last();
        lemma_pieces_chars(t, sep);
        lemma_pieces_nonempty(t, sep);
        let q = pieces(t, sep);
        assert forall|j: int, k: int|
            0 <= j < pieces(s, sep).len() && 0 <= k < pieces(s, sep)[j].len() implies s.contains(
                #[trigger] pieces(s, sep)[j][k],
            ) by {
            let x = pieces(s, sep)[j][k];
            if j < q.len() && k < q[j].len() && pieces(s, sep)[j][k] == q[j][k] {
                assert(t.contains(q[j][k]));
                let i = choose|i: int| 0 <= i < t.len() && t[i] == q[j][k];
                assert(s[i] == x);
            } else {
                assert(x == s.last());
                assert(s[s.len() - 1] == x);
            }
        }
    }
}

/// The pieces of the lowercased text are the lowercased pieces.
pub proof fn lemma_pieces_lower(s: Seq<char>)
    ensures
        pieces(ascii_lower_seq(s), Separator::Dash) == lower_pieces(pieces(s, Separator::Dash)),
    decreases s.len(),
{
    let ls = ascii_lower_seq(s);
    let empty = Seq::<char>::empty();
    assert(ascii_lower_seq(empty) =~= empty);
    if s.len() == 0 {
        assert(ls =~= s);
        assert(lower_pieces(seq![empty]) =~= seq![empty]);
    } else {
        lemma_pieces_lower(s.drop_last());
        assert(ls.drop_last() =~= ascii_lower_seq(s.drop_last()));
        assert(ls.last() == ascii_lower(s.last()));
        lemma_ascii_lower_char(s.last());
        lemma_pieces_nonempty(s.drop_last(), Separator::Dash);
        let q = pieces(s.drop_last(), Separator::Dash);
        let lq = lower_pieces(q);
        if s.last() == '-' {
            assert(lq.push(empty) =~= lower_pieces(q.push(empty)));
        } else {
            assert(ascii_lower_seq(q.last().push(s.last())) =~= ascii_lower_seq(q.last()).push(
                ascii_lower(s.last()),
            ));
            assert(lq.update(lq.len() - 1, lq.last().push(ascii_lower(s.last()))) =~= lower_pieces(
                q.update(q.len() - 1, q.last().push(s.last())),
            ));
        }
    }
}

proof fn lemma_step_lower(ps: Seq<Seq<char>>, i: int, e: bool, st: KeystrokeState)
    requires
        0 <= i,
        !has_verbatim_marker(ps),
        ps.len() > 0 ==> !(ps.last().len() == 1 && is_ascii_upper(ps.last()[0])),
    ensures
        keystroke_step(ps, i, e, st) == keystroke_step(lower_pieces(ps), i, e, st),
    decreases ps.len() - i,
{
    let lps = lower_pieces(ps);
    if i < ps.len() {
        let p = ps[i];
        let lp = lps[i];
        assert(lp == ascii_lower_seq(p));
        lemma_ascii_lower_idempotent(p);
        let (m, key, key_char) = st;
        lemma_step_lower(ps, i + 1, e, (Modifiers { control: true, ..m }, key, key_char));
        lemma_step_lower(ps, i + 1, e, (Modifiers { alt: true, ..m }, key, key_char));
        lemma_step_lower(ps, i + 1, e, (Modifiers { shift: true, ..m }, key, key_char));
        lemma_step_lower(ps, i + 1, e, (Modifiers { meta: true, ..m }, key, key_char));
        if i + 1 < ps.len() {
            let next = ps[i + 1];
            let lnext = lps[i + 1];
            assert(lnext == ascii_lower_seq(next));
            assert(lnext.len() == next.len());
            if next.len() > 1 {
                assert(!(next.len() > 1 && next[0] == '>'));
                assert(lnext[0] == ascii_lower(next[0]));
                lemma_ascii_lower_char(next[0]);
            }
        } else {
            assert(p == ps.last());
            assert(lp.len() == p.len());
            if lp.len() == 1 {
                assert(lp[0] == ascii_lower(p[0]));
                lemma_ascii_lower_char(p[0]);
            }
        }
    }
}

/// ASCII case does not change a keystroke written without `>` whose last piece is
/// not one uppercase letter: the text and its ASCII-lowercased form stand for the
/// same keystroke.
pub proof fn lemma_ascii_case_ignored(s: Seq<char>)
    requires
        !s.contains('>'),
        !(pieces(s, Separator::Dash).last().len() == 1 && is_ascii_upper(pieces(s, Separator::Dash).last()[0])),
    ensures
        parse_keystroke(s) == parse_keystroke(ascii_lower_seq(s)),
{
    let ps = pieces(s, Separator::Dash);
    lemma_pieces_chars(s, Separator::Dash);
    lemma_pieces_nonempty(s, Separator::Dash);
    assert(!has_verbatim_marker(ps)) by {
        if has_verbatim_marker(ps) {
            let j = choose|j: int| 0 <= j < ps.len() && (#[trigger] ps[j]).len() > 1 && ps[j][0] == '>';
            assert(s.contains(ps[j][0]));
        }
    }
    lemma_pieces_lower(s);
    let ls = ascii_lower_seq(s);
    if s.len() > 0 {
        assert(ls.last() == ascii_lower(s.last()));
        lemma_ascii_lower_char(s.last());
    }
    lemma_step_lower(ps, 0, s.len() > 0 && s.last() == '-', (Modifiers::empty_spec(), None, None));
}

/// What holds of the parser's state while it reads: no `none` flag, no key
/// character yet, and a key (if any) in lowercase unless a piece named it verbatim.
pub open spec fn reading_state_ok(ps: Seq<Seq<char>>, st: KeystrokeState) -> bool {
    &&& !st.0.none
    &&& st.2 is None
    &&& st.1 matches Some(k) ==> has_verbatim_marker(ps) || k == ascii_lower_seq(k)
}

/// What holds of the parser's final state: as while reading, and a key character
/// (if any) is the key in uppercase where shift is held, in lowercase elsewhere.
pub open spec fn final_state_ok(ps: Seq<Seq<char>>, st: KeystrokeState) -> bool {
    &&& !st.0.none
    &&& st.1 matches Some(k) ==> has_verbatim_marker(ps) || k == ascii_lower_seq(k)
    &&& st.2 matches Some(c) ==> st.1 matches Some(k) && c == (if st.0.shift {
        unicode_uppercase(k)
    } else {
        unicode_lowercase(k)
    })
}

proof fn lemma_step_shape(ps: Seq<Seq<char>>, i: int, e: bool, st: KeystrokeState)
    requires
        0 <= i,
        reading_state_ok(ps, st),
    ensures
        keystroke_step(ps, i, e, st) matches Some(r) ==> final_state_ok(ps, r),
    decreases ps.len() - i,
{
    if i < ps.len() {
        let p = ps[i];
        let (m, key, key_char) = st;
        lemma_step_shape(ps, i + 1, e, (Modifiers { control: true, ..m }, key, key_char));
        lemma_step_shape(ps, i + 1, e, (Modifiers { alt: true, ..m }, key, key_char));
        lemma_step_shape(ps, i + 1, e, (Modifiers { shift: true, ..m }, key, key_char));
        lemma_step_shape(ps, i + 1, e, (Modifiers { meta: true, ..m }, key, key_char));
        assert(ascii_lower_seq(seq!['-']) =~= seq!['-']);
        if i + 1 < ps.len() {
            let next = ps[i + 1];
            if next.len() > 1 && next[0] == '>' {
                assert(has_verbatim_marker(ps));
                lemma_step_shape(ps, i + 2, e, (m, Some(p), key_char));
            }
        } else {
            lemma_ascii_lower_idempotent(p);
        }
    }
}

/// A parsed keystroke has no `none` flag; its key is in lowercase unless the text
/// holds `>`; and its key character, where it has one, is one byte long and is the
/// key in uppercase where shift is held, in lowercase elsewhere.
pub proof fn lemma_parsed_keystroke_shape(s: Seq<char>)
    ensures
        parse_keystroke(s) matches Some(k) ==> {
            &&& !k.modifiers.none
            &&& s.contains('>') || k.key == ascii_lower_seq(k.key)
            &&& k.key_char matches Some(c) ==> is_single_byte(c) && c == (if k.modifiers.shift {
                unicode_uppercase(k.key)
            } else {
                unicode_lowercase(k.key)
            })
        },
{
    let ps = pieces(s, Separator::Dash);
    lemma_pieces_chars(s, Separator::Dash);
    if has_verbatim_marker(ps) {
        let j = choose|j: int| 0 <= j < ps.len() && (#[trigger] ps[j]).len() > 1 && ps[j][0] == '>';
        assert(s.contains(ps[j][0]));
    }
    lemma_step_shape(ps, 0, s.len() > 0 && s.last() == '-', (Modifiers::empty_spec(), None, None));
}

pub open spec fn opt_view(o: Option<Vec<char>>) -> Option<Seq<char>> {
    match o {
        Some(v) => Some(v@),
        None => None,
    }
}

pub open spec fn opt_string_view(o: Option<String>) -> Option<Seq<char>> {
    match o {
        Some(v) => Some(v@),
        None => None,
    }
}

} // verus!
