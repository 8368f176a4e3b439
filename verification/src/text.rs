//! Character-level helpers shared by the other modules.

use vstd::prelude::*;

verus! {

/// The text of an optional string.
pub open spec fn opt_text(s: Option<String>) -> Option<Seq<char>> {
    match s {
        Some(x) => Some(x@),
        None => None,
    }
}

/// The characters of `s`, in order.
pub fn chars_of(s: &str) -> (v: Vec<char>)
    ensures
        v@ == s@,
{
    let mut v: Vec<char> = Vec::new();
    for c in it: s.chars()
        invariant
            v@ == it.seq().take(it.index() as int),
            it.seq() == s@,
    {
        v.push(c);
    }
    v
}

/// Appends one character, through `String::push`.
#[verifier::external_body]
pub(crate) fn push_char(s: &mut String, c: char)
    ensures
        final(s)@ == old(s)@.push(c),
{
    s.push(c);
}

/// Whether the characters `a` spell out `lit`.
pub fn same_chars(a: &[char], lit: &str) -> (r: bool)
    ensures
        r == (a@ == lit@),
{
    let n = lit.unicode_len();
    if a.len() != n {
        return false;
    }
    let mut i: usize = 0;
    while i < n
        invariant
            n == lit@.len(),
            a@.len() == n,
            i <= n,
            forall|k: int| 0 <= k < i ==> a@[k] == lit@[k],
        decreases n - i,
    {
        if a[i] != lit.get_char(i) {
            return false;
        }
        i = i + 1;
    }
    assert(a@ =~= lit@);
    true
}

/// `n` spaces.
pub fn spaces(n: usize) -> (s: String)
    ensures
        s@ == Seq::new(n as nat, |_i: int| ' '),
{
    let mut s = String::new();
    let mut i: usize = 0;
    while i < n
        invariant
            i <= n,
            s@ == Seq::new(i as nat, |_i: int| ' '),
        decreases n - i,
    {
        push_char(&mut s, ' ');
        assert(s@ =~= Seq::new((i + 1) as nat, |_i: int| ' '));
        i = i + 1;
    }
    s
}

/// The decimal digits of `n`, most significant first.
pub open spec fn decimal(n: nat) -> Seq<char>
    decreases n,
{
    if n < 10 {
        seq![digit_char(n)]
    } else {
        decimal(n / 10).push(digit_char(n % 10))
    }
}

/// The character of a decimal digit.
pub open spec fn digit_char(d: nat) -> char {
    (('0' as u32) + d) as char
}

/// `n` written in decimal.
pub fn decimal_string(n: usize) -> (s: String)
    ensures
        s@ == decimal(n as nat),
    decreases n,
{
    if n < 10 {
        let mut s = String::new();
        let c = digit_of(n);
        push_char(&mut s, c);
        assert(s@ =~= decimal(n as nat));
        s
    } else {
        let mut s = decimal_string(n / 10);
        let c = digit_of(n % 10);
        push_char(&mut s, c);
        s
    }
}

/// The character of the decimal digit `d`.
fn digit_of(d: usize) -> (c: char)
    requires
        d < 10,
    ensures
        c == digit_char(d as nat),
{
    if d == 0 { '0' }
    else if d == 1 { '1' }
    else if d == 2 { '2' }
    else if d == 3 { '3' }
    else if d == 4 { '4' }
    else if d == 5 { '5' }
    else if d == 6 { '6' }
    else if d == 7 { '7' }
    else if d == 8 { '8' }
    else { '9' }
}

/// Unicode `White_Space`: the characters on which a query is split.
pub open spec fn is_whitespace(c: char) -> bool {
    let u = c as u32;
    ||| 0x9 <= u <= 0xd
    ||| u == 0x20
    ||| u == 0x85
    ||| u == 0xa0
    ||| u == 0x1680
    ||| 0x2000 <= u <= 0x200a
    ||| u == 0x2028
    ||| u == 0x2029
    ||| u == 0x202f
    ||| u == 0x205f
    ||| u == 0x3000
}

/// Whether `c` is a whitespace character.
pub fn char_is_whitespace(c: char) -> (r: bool)
    ensures
        r == is_whitespace(c),
{
    let u = c as u32;
    (0x9 <= u && u <= 0xd) || u == 0x20 || u == 0x85 || u == 0xa0 || u == 0x1680 || (0x2000 <= u
        && u <= 0x200a) || u == 0x2028 || u == 0x2029 || u == 0x202f || u == 0x205f || u == 0x3000
}

/// Length of the leading run of non-whitespace characters of `s`.
pub open spec fn leading_run(s: Seq<char>) -> nat
    decreases s.len(),
{
    if s.len() == 0 || is_whitespace(s[0]) {
        0
    } else {
        1 + leading_run(s.drop_first())
    }
}

/// The leading run never runs past the end.
pub proof fn lemma_leading_run_bounded(s: Seq<char>)
    ensures
        leading_run(s) <= s.len(),
    decreases s.len(),
{
    if s.len() > 0 && !is_whitespace(s[0]) {
        lemma_leading_run_bounded(s.drop_first());
    }
}

/// The whitespace-separated words of `s`, in order.
pub open spec fn words(s: Seq<char>) -> Seq<Seq<char>>
    decreases s.len(),
{
    if s.len() == 0 {
        Seq::empty()
    } else if is_whitespace(s[0]) {
        words(s.drop_first())
    } else {
        let n = leading_run(s);
        proof {
            lemma_leading_run_bounded(s);
        }
        seq![s.take(n as int)] + words(s.skip(n as int))
    }
}

/// The leading run ends at the first whitespace character.
pub proof fn lemma_leading_run(s: Seq<char>, n: int)
    requires
        0 <= n <= s.len(),
        forall|k: int| 0 <= k < n ==> !is_whitespace(#[trigger] s[k]),
        n == s.len() || is_whitespace(s[n]),
    ensures
        leading_run(s) == n,
    decreases n,
{
    if n > 0 {
        assert forall|k: int| 0 <= k < n - 1 implies !is_whitespace(#[trigger] s.drop_first()[k]) by {
            assert(s.drop_first()[k] == s[k + 1]);
        }
        if n < s.len() {
            assert(s.drop_first()[n - 1] == s[n]);
        }
        lemma_leading_run(s.drop_first(), n - 1);
    }
}

/// The whitespace-separated words of `s`.
pub fn split_words(s: &[char]) -> (ws: Vec<Vec<char>>)
    ensures
        ws@.map_values(|w: Vec<char>| w@) == words(s@),
{
    let mut ws: Vec<Vec<char>> = Vec::new();
    let n = s.len();
    let mut i: usize = 0;
    assert(s@.skip(0) =~= s@);
    while i < n
        invariant
            n == s@.len(),
            i <= n,
            words(s@) == ws@.map_values(|w: Vec<char>| w@) + words(s@.skip(i as int)),
        decreases n - i,
    {
        let ghost rest = s@.skip(i as int);
        if char_is_whitespace(s[i]) {
            assert(rest.drop_first() =~= s@.skip(i + 1));
            i = i + 1;
        } else {
            let start = i;
            let mut word: Vec<char> = Vec::new();
            while i < n && !char_is_whitespace(s[i])
                invariant
                    n == s@.len(),
                    start < n,
                    start <= i <= n,
                    word@ == s@.subrange(start as int, i as int),
                    forall|k: int| start <= k < i ==> !is_whitespace(#[trigger] s@[k]),
                decreases n - i,
            {
                word.push(s[i]);
                assert(word@ =~= s@.subrange(start as int, i + 1));
                i = i + 1;
            }
            proof {
                let m = (i - start) as int;
                assert forall|k: int| 0 <= k < m implies !is_whitespace(#[trigger] rest[k]) by {
                    assert(rest[k] == s@[start + k]);
                }
                if i < n {
                    assert(rest[m] == s@[i as int]);
                }
                lemma_leading_run(rest, m);
                assert(rest.take(m) =~= word@);
                assert(rest.skip(m) =~= s@.skip(i as int));
                assert(words(rest) == seq![word@] + words(s@.skip(i as int)));
            }
            let ghost before = ws@.map_values(|w: Vec<char>| w@);
            ws.push(word);
            assert(ws@.map_values(|w: Vec<char>| w@) =~= before.push(word@));
            assert(before + (seq![word@] + words(s@.skip(i as int))) =~= before.push(word@) + words(s@.skip(i as int)));
        }
    }
    assert(s@.skip(n as int) =~= Seq::<char>::empty());
    assert(words(s@.skip(n as int)) =~= Seq::<Seq<char>>::empty());
    assert(words(s@) =~= ws@.map_values(|w: Vec<char>| w@));
    ws
}

/// The number that decimal digits `s` spell, most significant first.
pub open spec fn digits_value(s: Seq<char>) -> int
    decreases s.len(),
{
    if s.len() == 0 {
        0
    } else {
        digits_value(s.drop_last()) * 10 + ((s.last() as u32) - ('0' as u32))
    }
}

/// `n` in decimal is made of the digits `0`..`9`, has no leading zero
/// (`0` itself is the one digit `0`), and reads back as `n`.
pub proof fn law_decimal_reads_back(n: nat)
    ensures
        decimal(n).len() >= 1,
        forall|i: int| 0 <= i < decimal(n).len() ==> '0' <= #[trigger] decimal(n)[i] <= '9',
        decimal(n)[0] != '0' || n == 0,
        decimal(n).len() == 1 || decimal(n)[0] != '0',
        digits_value(decimal(n)) == n,
    decreases n,
{
    lemma_digit_char((n % 10) as nat);
    if n >= 10 {
        law_decimal_reads_back(n / 10);
        let d = decimal(n / 10);
        assert(decimal(n) == d.push(digit_char(n % 10)));
        assert(decimal(n).drop_last() =~= d);
        assert(decimal(n)[0] == d[0]);
        assert(n == (n / 10) * 10 + n % 10);
        assert(decimal(n).last() == digit_char(n % 10));
        assert(digits_value(decimal(n)) == digits_value(d) * 10 + (n % 10));
    } else {
        assert(decimal(n).drop_last() =~= Seq::<char>::empty());
        assert(digits_value(Seq::<char>::empty()) == 0);
        assert(decimal(n).last() == digit_char(n));
        assert(digits_value(decimal(n)) == n);
    }
}

/// The digit character of `d` is the `d`-th after `0`.
proof fn lemma_digit_char(d: nat)
    requires
        d < 10,
    ensures
        digit_char(d) as u32 == '0' as u32 + d,
        '0' <= digit_char(d) <= '9',
        d != 0 ==> digit_char(d) != '0',
{
}

/// The characters Unicode lists as `White_Space`: tab, line feed,
/// vertical tab, form feed, carriage return, space, next line, no-break
/// space, ogham space mark, the spaces from en quad to hair space, line and
/// paragraph separators, narrow no-break space, medium mathematical space
/// and ideographic space.
pub open spec fn unicode_white_space(c: char) -> bool {
    c == '\t' || c == '\n' || c == '\u{0b}' || c == '\u{0c}' || c == '\r' || c == ' ' || c
        == '\u{85}' || c == '\u{a0}' || c == '\u{1680}' || ('\u{2000}' <= c && c <= '\u{200a}')
        || c == '\u{2028}' || c == '\u{2029}' || c == '\u{202f}' || c == '\u{205f}' || c
        == '\u{3000}'
}

/// Query words are separated by the Unicode `White_Space` characters and
/// by nothing else: `/`, `-`, `_` and `.` stay inside a word.
pub proof fn law_whitespace_is_unicode_white_space(c: char)
    ensures
        is_whitespace(c) <==> unicode_white_space(c),
        !is_whitespace('/') && !is_whitespace('-') && !is_whitespace('_') && !is_whitespace('.'),
{
}

} // verus!
