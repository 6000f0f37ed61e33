//! Character and string helpers shared by the parsers and the editor.
use vstd::prelude::*;
use vstd::string::*;

verus! {

/// ASCII lowercase mapping of one character; other characters are unchanged.
pub open spec fn ascii_lower(c: char) -> char {
    if 'A' <= c && c <= 'Z' {
        ((c as u32) + 32) as char
    } else {
        c
    }
}

/// ASCII lowercase mapping of a whole character sequence.
pub open spec fn ascii_lower_seq(s: Seq<char>) -> Seq<char> {
    s.map_values(|c: char| ascii_lower(c))
}

/// Whether the character is an ASCII uppercase letter.
pub open spec fn is_ascii_upper(c: char) -> bool {
    'A' <= c && c <= 'Z'
}

/// Case-insensitive ASCII equality of two character sequences.
pub open spec fn eq_ignore_ascii_case(a: Seq<char>, b: Seq<char>) -> bool {
    ascii_lower_seq(a) == ascii_lower_seq(b)
}

pub fn to_ascii_lower(c: char) -> (r: char)
    ensures
        r == ascii_lower(c),
{
    if 'A' <= c && c <= 'Z' {
        let u: u32 = c as u32;
        let v: u32 = u + 32;
        proof {
            assert(v <= 0x7f);
        }
        char_from_ascii(v)
    } else {
        c
    }
}

fn char_from_ascii(v: u32) -> (r: char)
    requires
        v < 128,
    ensures
        r == v as char,
{
    let b: u8 = v as u8;
    b as char
}


/// Whether the character has the Unicode `White_Space` property: tab, line feed,
/// vertical tab, form feed, carriage return, space, U+0085, U+00A0, U+1680,
/// U+2000 to U+200A, U+2028, U+2029, U+202F, U+205F and U+3000.
pub open spec fn unicode_white_space(c: char) -> bool {
    let u = c as u32;
    ||| 0x09 <= u <= 0x0D
    ||| u == 0x20
    ||| u == 0x85
    ||| u == 0xA0
    ||| u == 0x1680
    ||| 0x2000 <= u <= 0x200A
    ||| u == 0x2028
    ||| u == 0x2029
    ||| u == 0x202F
    ||| u == 0x205F
    ||| u == 0x3000
}

/// ASCII uppercase mapping of one character; other characters are unchanged.
pub open spec fn ascii_upper(c: char) -> char {
    if 'a' <= c && c <= 'z' {
        ((c as u32) - 32) as char
    } else {
        c
    }
}

/// ASCII uppercase mapping of a whole character sequence.
pub open spec fn ascii_upper_seq(s: Seq<char>) -> Seq<char> {
    s.map_values(|c: char| ascii_upper(c))
}

/// Whether the character is Unicode alphabetic or numeric.
pub uninterp spec fn unicode_alphanumeric(c: char) -> bool;

/// Whether the character is Unicode numeric.
pub uninterp spec fn unicode_numeric(c: char) -> bool;

/// The Unicode uppercase mapping of a string.
pub uninterp spec fn unicode_uppercase(s: Seq<char>) -> Seq<char>;

/// The Unicode lowercase mapping of a string.
pub uninterp spec fn unicode_lowercase(s: Seq<char>) -> Seq<char>;

/// An ASCII letter or digit.
pub open spec fn is_ascii_alphanumeric(c: char) -> bool {
    ('A' <= c && c <= 'Z') || ('a' <= c && c <= 'z') || ('0' <= c && c <= '9')
}

/// An ASCII digit.
pub open spec fn is_ascii_digit(c: char) -> bool {
    '0' <= c && c <= '9'
}

/// Whether the character is alphabetic or numeric, as `char::is_alphanumeric`
/// tells: on ASCII, the letters and digits.
pub open spec fn char_alphanumeric(c: char) -> bool {
    if (c as u32) < 128 {
        is_ascii_alphanumeric(c)
    } else {
        unicode_alphanumeric(c)
    }
}

/// Whether the character is numeric, as `char::is_numeric` tells: on ASCII, the
/// digits.
pub open spec fn char_numeric(c: char) -> bool {
    if (c as u32) < 128 {
        is_ascii_digit(c)
    } else {
        unicode_numeric(c)
    }
}

/// Whether the character has the Unicode `White_Space` property, which holds of
/// exactly the characters that `unicode_white_space` lists (as `char::is_whitespace`
/// tells).
pub fn char_is_whitespace(c: char) -> (r: bool)
    ensures
        r == unicode_white_space(c),
{
    let u = c as u32;
    (0x09 <= u && u <= 0x0D) || u == 0x20 || u == 0x85 || u == 0xA0 || u == 0x1680 || (0x2000 <= u && u
        <= 0x200A) || u == 0x2028 || u == 0x2029 || u == 0x202F || u == 0x205F || u == 0x3000
}

/// Calls `char::is_alphanumeric`; its result is named by `unicode_alphanumeric`.
/// On ASCII its documentation fixes it: the letters and digits are alphanumeric,
/// no other ASCII character is.
#[verifier::external_body]
pub(crate) fn char_is_alphanumeric(c: char) -> (r: bool)
    ensures
        r == unicode_alphanumeric(c),
        (c as u32) < 128 ==> (r == is_ascii_alphanumeric(c)),
{
    c.is_alphanumeric()
}

/// Calls `char::is_numeric`; its result is named by `unicode_numeric`. On ASCII its
/// documentation fixes it: the digits are numeric, no other ASCII character is.
#[verifier::external_body]
pub(crate) fn char_is_numeric(c: char) -> (r: bool)
    ensures
        r == unicode_numeric(c),
        (c as u32) < 128 ==> (r == is_ascii_digit(c)),
{
    c.is_numeric()
}

/// Calls `str::to_uppercase`; its result is named by `unicode_uppercase`. On ASCII
/// text the Unicode mapping is the ASCII one: `a` to `z` become `A` to `Z`, the rest
/// stays.
#[verifier::external_body]
pub(crate) fn str_to_uppercase(s: &str) -> (r: String)
    ensures
        r@ == unicode_uppercase(s@),
        is_ascii_chars_seq(s@) ==> r@ == ascii_upper_seq(s@),
{
    s.to_uppercase()
}

/// Calls `str::to_lowercase`; its result is named by `unicode_lowercase`. On ASCII
/// text the Unicode mapping is the ASCII one: `A` to `Z` become `a` to `z`, the rest
/// stays.
#[verifier::external_body]
pub(crate) fn str_to_lowercase(s: &str) -> (r: String)
    ensures
        r@ == unicode_lowercase(s@),
        is_ascii_chars_seq(s@) ==> r@ == ascii_lower_seq(s@),
{
    s.to_lowercase()
}

/// Calls `String::push`, which appends one character.
#[verifier::external_body]
pub(crate) fn string_push(s: &mut String, c: char)
    ensures
        final(s)@ == old(s)@.push(c),
{
    s.push(c)
}

/// The characters of a string slice, in order.
pub fn str_to_chars(s: &str) -> (v: Vec<char>)
    ensures
        v@ == s@,
{
    let n = s.unicode_len();
    let mut v: Vec<char> = Vec::new();
    let mut i: usize = 0;
    while i < n
        invariant
            n == s@.len(),
            i <= n,
            v@ == s@.take(i as int),
        decreases n - i,
    {
        let c = s.get_char(i);
        v.push(c);
        i = i + 1;
        proof {
            assert(s@.take(i as int) =~= s@.take(i - 1).push(c));
        }
    }
    proof {
        assert(s@.take(n as int) =~= s@);
    }
    v
}

/// A string holding the given characters, in order.
pub fn chars_to_string(v: &Vec<char>) -> (s: String)
    ensures
        s@ == v@,
{
    let mut s = String::new();
    let mut i: usize = 0;
    while i < v.len()
        invariant
            i <= v.len(),
            s@ == v@.take(i as int),
        decreases v.len() - i,
    {
        string_push(&mut s, v[i]);
        i = i + 1;
        proof {
            assert(v@.take(i as int) =~= v@.take(i - 1).push(v@[i - 1]));
        }
    }
    proof {
        assert(v@.take(v.len() as int) =~= v@);
    }
    s
}

/// Appends the characters to the string.
pub fn push_chars(s: &mut String, cs: &Vec<char>)
    ensures
        final(s)@ == old(s)@ + cs@,
{
    let ghost start = s@;
    let mut i: usize = 0;
    while i < cs.len()
        invariant
            i <= cs.len(),
            start == old(s)@,
            s@ == start + cs@.take(i as int),
        decreases cs.len() - i,
    {
        string_push(s, cs[i]);
        i = i + 1;
        proof {
            assert(start + cs@.take(i as int) =~= (start + cs@.take(i - 1)).push(cs@[i - 1]));
        }
    }
    proof {
        assert(cs@.take(cs.len() as int) =~= cs@);
    }
}

/// Whether every character is ASCII.
pub open spec fn is_ascii_chars_seq(s: Seq<char>) -> bool {
    forall|i: int| 0 <= i < s.len() ==> (#[trigger] s[i] as u32) < 128
}

/// Whether a string is exactly one byte long in UTF-8: one ASCII character.
pub open spec fn is_single_byte(s: Seq<char>) -> bool {
    s.len() == 1 && (s[0] as u32) < 128
}

pub fn string_is_single_byte(s: &String) -> (r: bool)
    ensures
        r == is_single_byte(s@),
{
    let v = str_to_chars(s.as_str());
    v.len() == 1 && (v[0] as u32) < 128
}

/// ASCII case-insensitive equality, as `str::eq_ignore_ascii_case` defines it.
pub fn chars_eq_ignore_ascii_case(a: &Vec<char>, b: &Vec<char>) -> (r: bool)
    ensures
        r == eq_ignore_ascii_case(a@, b@),
{
    if a.len() != b.len() {
        proof {
            assert(ascii_lower_seq(a@).len() != ascii_lower_seq(b@).len());
        }
        return false;
    }
    let mut i: usize = 0;
    while i < a.len()
        invariant
            a.len() == b.len(),
            i <= a.len(),
            forall|j: int| 0 <= j < i ==> ascii_lower(#[trigger] a@[j]) == ascii_lower(b@[j]),
        decreases a.len() - i,
    {
        if to_ascii_lower(a[i]) != to_ascii_lower(b[i]) {
            proof {
                assert(ascii_lower_seq(a@)[i as int] != ascii_lower_seq(b@)[i as int]);
            }
            return false;
        }
        i = i + 1;
    }
    proof {
        assert(ascii_lower_seq(a@) =~= ascii_lower_seq(b@));
    }
    true
}

/// The ASCII lowercase form of a character vector.
pub fn chars_to_ascii_lower(a: &Vec<char>) -> (r: Vec<char>)
    ensures
        r@ == ascii_lower_seq(a@),
{
    let mut r: Vec<char> = Vec::new();
    let mut i: usize = 0;
    while i < a.len()
        invariant
            i <= a.len(),
            r@ == ascii_lower_seq(a@.take(i as int)),
        decreases a.len() - i,
    {
        r.push(to_ascii_lower(a[i]));
        i = i + 1;
        proof {
            assert(ascii_lower_seq(a@.take(i as int)) =~= ascii_lower_seq(a@.take(i - 1)).push(
                ascii_lower(a@[i - 1]),
            ));
        }
    }
    proof {
        assert(a@.take(a.len() as int) =~= a@);
    }
    r
}


/// The separators that text is cut at.
#[derive(Clone, Copy, Debug, PartialEq, Eq, Structural)]
pub enum Separator {
    Dash,
    WhiteSpace,
}

pub open spec fn is_separator(sep: Separator, c: char) -> bool {
    match sep {
        Separator::Dash => c == '-',
        Separator::WhiteSpace => unicode_white_space(c),
    }
}

/// The pieces of `s` between separator characters, empty pieces included
/// (so `k` separators give `k + 1` pieces), as `str::split` yields them.
pub open spec fn pieces(s: Seq<char>, sep: Separator) -> Seq<Seq<char>>
    decreases s.len(),
{
    if s.len() == 0 {
        seq![Seq::<char>::empty()]
    } else {
        let p = pieces(s.drop_last(), sep);
        if is_separator(sep, s.last()) {
            p.push(Seq::<char>::empty())
        } else {
            p.update(p.len() - 1, p.last().push(s.last()))
        }
    }
}

pub proof fn lemma_pieces_nonempty(s: Seq<char>, sep: Separator)
    ensures
        pieces(s, sep).len() >= 1,
    decreases s.len(),
{
    if s.len() > 0 {
        lemma_pieces_nonempty(s.drop_last(), sep);
    }
}

/// The non-empty pieces of `s` between separators.
pub open spec fn words(s: Seq<char>, sep: Separator) -> Seq<Seq<char>> {
    drop_empty(pieces(s, sep))
}

/// The non-empty members of `ps`, in order.
pub open spec fn drop_empty(ps: Seq<Seq<char>>) -> Seq<Seq<char>>
    decreases ps.len(),
{
    if ps.len() == 0 {
        ps
    } else {
        let r = drop_empty(ps.drop_last());
        if ps.last().len() > 0 {
            r.push(ps.last())
        } else {
            r
        }
    }
}

fn is_sep(sep: Separator, c: char) -> (r: bool)
    ensures
        r == is_separator(sep, c),
{
    match sep {
        Separator::Dash => c == '-',
        Separator::WhiteSpace => char_is_whitespace(c),
    }
}

/// The character sequences held by a vector of character vectors.
pub open spec fn views(v: Seq<Vec<char>>) -> Seq<Seq<char>> {
    v.map_values(|x: Vec<char>| x@)
}

/// Cuts `s` at every separator character.
pub fn split_pieces(s: &Vec<char>, sep: Separator) -> (r: Vec<Vec<char>>)
    ensures
        views(r@) == pieces(s@, sep),
{
    let mut acc: Vec<Vec<char>> = Vec::new();
    let mut cur: Vec<char> = Vec::new();
    let mut i: usize = 0;
    while i < s.len()
        invariant
            i <= s.len(),
            views(acc@).push(cur@) == pieces(s@.take(i as int), sep),
        decreases s.len() - i,
    {
        let c = s[i];
        let ghost before = views(acc@).push(cur@);
        let ghost acc_before = acc@;
        proof {
            assert(s@.take(i + 1).drop_last() =~= s@.take(i as int));
            lemma_pieces_nonempty(s@.take(i as int), sep);
        }
        if is_sep(sep, c) {
            acc.push(cur);
            cur = Vec::new();
            proof {
                assert(acc@ == acc_before.push(acc@.last()));
                assert(views(acc@) =~= views(acc_before).push(acc@.last()@));
                assert(views(acc@).push(cur@) =~= before.push(Seq::<char>::empty()));
            }
        } else {
            cur.push(c);
            proof {
                assert(views(acc@).push(cur@) =~= before.update(
                    before.len() - 1,
                    before.last().push(c),
                ));
            }
        }
        i = i + 1;
    }
    proof {
        assert(s@.take(s.len() as int) =~= s@);
    }
    let ghost acc_before = acc@;
    let ghost cur_view = cur@;
    acc.push(cur);
    proof {
        assert(views(acc@) =~= views(acc_before).push(cur_view));
    }
    acc
}

/// The non-empty pieces of `s` between separators, as `str::split_whitespace` yields them.
pub fn split_words(s: &Vec<char>, sep: Separator) -> (r: Vec<Vec<char>>)
    ensures
        views(r@) == words(s@, sep),
{
    let all = split_pieces(s, sep);
    let mut r: Vec<Vec<char>> = Vec::new();
    let mut i: usize = 0;
    while i < all.len()
        invariant
            i <= all.len(),
            views(all@) == pieces(s@, sep),
            views(r@) == drop_empty(views(all@).take(i as int)),
        decreases all.len() - i,
    {
        let ghost prev = views(all@).take(i as int);
        proof {
            assert(views(all@).take(i + 1) =~= prev.push(views(all@)[i as int]));
            assert(views(all@).take(i + 1).drop_last() =~= prev);
        }
        if all[i].len() > 0 {
            let w = all[i].clone();
            let ghost r_before = r@;
            r.push(w);
            proof {
                assert(views(r@) =~= views(r_before).push(w@));
                assert(views(r@) =~= drop_empty(prev).push(views(all@)[i as int]));
            }
        }
        i = i + 1;
    }
    proof {
        assert(views(all@).take(all.len() as int) =~= views(all@));
    }
    r
}

} // verus!
