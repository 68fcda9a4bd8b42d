//! Character-level string helpers with exact specifications: Unicode
//! whitespace trimming, ASCII case folding, decimal numbers, truncation and
//! substring search.

use vstd::prelude::*;
use vstd::string::*;

verus! {

/// `String::push` appends one character.
pub assume_specification[ String::push ](s: &mut String, ch: char)
    ensures
        final(s)@ == old(s)@.push(ch),
;

/// The characters of `s`, in order.
pub fn chars_of(s: &str) -> (r: Vec<char>)
    ensures
        r@ == s@,
{
    let mut v: Vec<char> = Vec::new();
    for c in it: s.chars()
        invariant
            v@ == it.seq().take(it.index() as int),
    {
        v.push(c);
    }
    v
}

/// The string whose characters are `chars[from..to]`.
pub fn string_from_chars(chars: &Vec<char>, from: usize, to: usize) -> (r: String)
    requires
        from <= to <= chars.len(),
    ensures
        r@ == chars@.subrange(from as int, to as int),
{
    let mut s = String::new();
    let mut i = from;
    while i < to
        invariant
            from <= i <= to <= chars.len(),
            s@ == chars@.subrange(from as int, i as int),
        decreases to - i,
    {
        s.push(chars[i]);
        assert(chars@.subrange(from as int, i + 1) == chars@.subrange(from as int, i as int).push(
            chars@[i as int],
        ));
        i += 1;
    }
    s
}

// ---------------------------------------------------------------------------
// Whitespace and trimming
/// The Unicode `White_Space` property, the notion of whitespace that
/// `char::is_whitespace` and `str::trim` use.
pub open spec fn is_white_space(c: char) -> bool {
    ||| '\t' <= c <= '\r'
    ||| c == ' '
    ||| c == '\u{85}'
    ||| c == '\u{a0}'
    ||| c == '\u{1680}'
    ||| '\u{2000}' <= c <= '\u{200a}'
    ||| c == '\u{2028}'
    ||| c == '\u{2029}'
    ||| c == '\u{202f}'
    ||| c == '\u{205f}'
    ||| c == '\u{3000}'
}

/// Tests one character for the Unicode `White_Space` property.
pub fn is_white_space_char(c: char) -> (r: bool)
    ensures
        r == is_white_space(c),
{
    ('\t' <= c && c <= '\r') || c == ' ' || c == '\u{85}' || c == '\u{a0}' || c == '\u{1680}' || (
    '\u{2000}' <= c && c <= '\u{200a}') || c == '\u{2028}' || c == '\u{2029}' || c == '\u{202f}'
        || c == '\u{205f}' || c == '\u{3000}'
}

/// `s` without its leading whitespace.
pub open spec fn trim_start(s: Seq<char>) -> Seq<char>
    decreases s.len(),
{
    if s.len() > 0 && is_white_space(s[0]) {
        trim_start(s.drop_first())
    } else {
        s
    }
}

/// `s` without its trailing whitespace.
pub open spec fn trim_end(s: Seq<char>) -> Seq<char>
    decreases s.len(),
{
    if s.len() > 0 && is_white_space(s.last()) {
        trim_end(s.drop_last())
    } else {
        s
    }
}

/// `s` without leading and trailing whitespace, as `str::trim` gives it.
pub open spec fn trim_whitespace(s: Seq<char>) -> Seq<char> {
    trim_end(trim_start(s))
}

/// The bounds `(a, b)` with `chars[a..b]` the trimmed characters.
pub fn trimmed_bounds(chars: &Vec<char>) -> (r: (usize, usize))
    ensures
        r.0 <= r.1 <= chars.len(),
        chars@.subrange(r.0 as int, r.1 as int) == trim_whitespace(chars@),
{
    let len = chars.len();
    let mut a: usize = 0;
    assert(chars@.subrange(0, len as int) == chars@);
    while a < len && is_white_space_char(chars[a])
        invariant
            a <= len == chars.len(),
            trim_start(chars@) == trim_start(chars@.subrange(a as int, len as int)),
        decreases len - a,
    {
        assert(chars@.subrange(a as int, len as int).drop_first() == chars@.subrange(
            a + 1,
            len as int,
        ));
        a += 1;
    }
    let mut b: usize = len;
    while b > a && is_white_space_char(chars[b - 1])
        invariant
            a <= b <= len == chars.len(),
            trim_start(chars@) == chars@.subrange(a as int, len as int),
            trim_whitespace(chars@) == trim_end(chars@.subrange(a as int, b as int)),
        decreases b - a,
    {
        assert(chars@.subrange(a as int, b as int).drop_last() == chars@.subrange(
            a as int,
            b - 1,
        ));
        b -= 1;
    }
    (a, b)
}

// ---------------------------------------------------------------------------
// ASCII case folding
/// `char::to_ascii_uppercase`: `a`..`z` become `A`..`Z`, all else stays.
pub open spec fn ascii_upper_char(c: char) -> char {
    if 'a' <= c <= 'z' {
        ((c as int) - 32) as char
    } else {
        c
    }
}

/// `str::to_ascii_uppercase`, character by character.
pub open spec fn ascii_upper(s: Seq<char>) -> Seq<char> {
    s.map_values(|c: char| ascii_upper_char(c))
}

/// `char::to_ascii_lowercase`: `A`..`Z` become `a`..`z`, all else stays.
pub open spec fn ascii_lower_char(c: char) -> char {
    if 'A' <= c <= 'Z' {
        ((c as int) + 32) as char
    } else {
        c
    }
}

/// `str::to_ascii_lowercase`, character by character.
pub open spec fn ascii_lower(s: Seq<char>) -> Seq<char> {
    s.map_values(|c: char| ascii_lower_char(c))
}

/// Upper-casing after either ASCII case mapping is upper-casing.
pub proof fn lemma_ascii_upper_absorbs(c: char)
    ensures
        ascii_upper_char(ascii_upper_char(c)) == ascii_upper_char(c),
        ascii_upper_char(ascii_lower_char(c)) == ascii_upper_char(c),
        is_white_space(ascii_upper_char(c)) == is_white_space(c),
        is_white_space(ascii_lower_char(c)) == is_white_space(c),
{
    if 'a' <= c <= 'z' {
        let u = ((c as int) - 32) as char;
        assert(u as int == (c as int) - 32);
    }
    if 'A' <= c <= 'Z' {
        let l = ((c as int) + 32) as char;
        assert(l as int == (c as int) + 32);
        assert(((l as int) - 32) as char == c);
    }
}

/// Whitespace trimming commutes with a character mapping that keeps
/// whitespace whitespace.
pub proof fn lemma_trim_map(s: Seq<char>, f: spec_fn(char) -> char)
    requires
        forall|c: char| #[trigger] is_white_space(f(c)) == is_white_space(c),
    ensures
        trim_whitespace(s.map_values(f)) == trim_whitespace(s).map_values(f),
{
    lemma_trim_start_map(s, f);
    lemma_trim_end_map(trim_start(s), f);
}

proof fn lemma_trim_start_map(s: Seq<char>, f: spec_fn(char) -> char)
    requires
        forall|c: char| #[trigger] is_white_space(f(c)) == is_white_space(c),
    ensures
        trim_start(s.map_values(f)) == trim_start(s).map_values(f),
    decreases s.len(),
{
    if s.len() > 0 {
        assert(s.map_values(f)[0] == f(s[0]));
        assert(s.map_values(f).drop_first() =~= s.drop_first().map_values(f));
        lemma_trim_start_map(s.drop_first(), f);
    }
}

proof fn lemma_trim_end_map(s: Seq<char>, f: spec_fn(char) -> char)
    requires
        forall|c: char| #[trigger] is_white_space(f(c)) == is_white_space(c),
    ensures
        trim_end(s.map_values(f)) == trim_end(s).map_values(f),
    decreases s.len(),
{
    if s.len() > 0 {
        assert(s.map_values(f).last() == f(s.last()));
        assert(s.map_values(f).drop_last() =~= s.drop_last().map_values(f));
        lemma_trim_end_map(s.drop_last(), f);
    }
}

/// Trimming a text with more after it.
pub proof fn lemma_trim_start_concat(s: Seq<char>, t: Seq<char>)
    ensures
        trim_start(s + t) == if trim_start(s).len() > 0 {
            trim_start(s) + t
        } else {
            trim_start(t)
        },
    decreases s.len(),
{
    if s.len() == 0 {
        assert(s + t =~= t);
    } else {
        assert((s + t)[0] == s[0]);
        if is_white_space(s[0]) {
            assert((s + t).drop_first() =~= s.drop_first() + t);
            lemma_trim_start_concat(s.drop_first(), t);
        }
    }
}

/// Surrounding whitespace does not change what trimming leaves.
pub proof fn lemma_trim_padding(s: Seq<char>)
    ensures
        trim_whitespace(seq![' ', '\t'] + s + seq!['\n']) == trim_whitespace(s),
{
    let p = seq![' ', '\t'] + s + seq!['\n'];
    assert(p.drop_first().drop_first() =~= s + seq!['\n']);
    assert(p[0] == ' ');
    assert(p.drop_first()[0] == '\t');
    assert(is_white_space(' ') && is_white_space('\t') && is_white_space('\n'));
    assert(trim_start(p) == trim_start(p.drop_first()));
    assert(trim_start(p.drop_first()) == trim_start(p.drop_first().drop_first()));
    assert(trim_start(p) == trim_start(s + seq!['\n']));
    lemma_trim_start_concat(s, seq!['\n']);
    let n = seq!['\n'];
    assert(n.drop_first() =~= Seq::<char>::empty());
    if trim_start(s).len() > 0 {
        let q = trim_start(s) + n;
        assert(q.last() == '\n');
        assert(q.drop_last() =~= trim_start(s));
    } else {
        assert(n[0] == '\n');
        assert(trim_start(n) == trim_start(n.drop_first()));
        assert(trim_start(n.drop_first()) == Seq::<char>::empty());
        assert(trim_start(s) =~= Seq::<char>::empty());
    }
}

/// Whether `c`, made upper case, is the upper-case letter `u`.
fn upper_char_is(c: char, u: char) -> (r: bool)
    requires
        'A' <= u <= 'Z',
    ensures
        r == (ascii_upper_char(c) == u),
{
    let cu = c as u32;
    let uu = u as u32;
    if cu == uu {
        true
    } else if cu == uu + 32 {
        assert('a' <= c <= 'z');
        assert(((c as int) - 32) as char == u);
        true
    } else {
        assert('a' <= c <= 'z' ==> ((c as int) - 32) as char != u);
        false
    }
}

/// Whether `chars[from..to]`, made upper case, is `word`.
pub fn upper_equals(chars: &Vec<char>, from: usize, to: usize, word: &Vec<char>) -> (r: bool)
    requires
        from <= to <= chars.len(),
        forall|k: int| 0 <= k < word.len() ==> 'A' <= #[trigger] word[k] <= 'Z',
    ensures
        r == (ascii_upper(chars@.subrange(from as int, to as int)) == word@),
{
    let ghost part = chars@.subrange(from as int, to as int);
    if to - from != word.len() {
        assert(ascii_upper(part).len() != word@.len());
        return false;
    }
    let mut i: usize = 0;
    while i < word.len()
        invariant
            from <= to <= chars.len(),
            to - from == word.len(),
            part == chars@.subrange(from as int, to as int),
            forall|k: int| 0 <= k < word.len() ==> 'A' <= #[trigger] word[k] <= 'Z',
            i <= word.len(),
            forall|k: int| 0 <= k < i ==> ascii_upper_char(#[trigger] part[k]) == word@[k],
        decreases word.len() - i,
    {
        if !upper_char_is(chars[from + i], word[i]) {
            assert(ascii_upper(part)[i as int] != word@[i as int]);
            return false;
        }
        i += 1;
    }
    assert(ascii_upper(part) =~= word@);
    true
}

// ---------------------------------------------------------------------------
// Decimal numbers
pub open spec fn is_ascii_digit(c: char) -> bool {
    '0' <= c <= '9'
}

pub open spec fn all_ascii_digits(s: Seq<char>) -> bool {
    forall|i: int| 0 <= i < s.len() ==> is_ascii_digit(#[trigger] s[i])
}

/// The value of one ASCII digit.
pub open spec fn digit_value(c: char) -> nat {
    ((c as int) - ('0' as int)) as nat
}

/// The value of a string of ASCII digits read in base ten.
pub open spec fn digits_value(s: Seq<char>) -> nat
    decreases s.len(),
{
    if s.len() == 0 {
        0
    } else {
        digits_value(s.drop_last()) * 10 + digit_value(s.last())
    }
}

/// `u64::from_str`: an optional `+`, then one or more ASCII digits whose
/// value fits in a `u64`; anything else is refused.
pub open spec fn parse_u64(s: Seq<char>) -> Option<u64> {
    let d = if s.len() > 0 && s[0] == '+' {
        s.drop_first()
    } else {
        s
    };
    if d.len() > 0 && all_ascii_digits(d) && digits_value(d) <= u64::MAX {
        Some(digits_value(d) as u64)
    } else {
        None
    }
}

/// A prefix of a digit string never has a larger value.
pub proof fn lemma_digits_value_prefix(s: Seq<char>, i: int)
    requires
        0 <= i <= s.len(),
    ensures
        digits_value(s.take(i)) <= digits_value(s),
    decreases s.len() - i,
{
    if i < s.len() {
        lemma_digits_value_prefix(s, i + 1);
        assert(s.take(i + 1).drop_last() =~= s.take(i));
    } else {
        assert(s.take(i) =~= s);
    }
}

/// Parses a decimal `u64` as `str::parse::<u64>` does.
pub fn parse_decimal_u64(s: &str) -> (r: Option<u64>)
    ensures
        r == parse_u64(s@),
{
    let chars = chars_of(s);
    let start: usize = if chars.len() > 0 && chars[0] == '+' {
        1
    } else {
        0
    };
    let ghost d = chars@.subrange(start as int, chars.len() as int);
    assert(d == (if s@.len() > 0 && s@[0] == '+' {
        s@.drop_first()
    } else {
        s@
    }));
    if start == chars.len() {
        return None;
    }
    let mut acc: u64 = 0;
    let mut i = start;
    while i < chars.len()
        invariant
            start <= i <= chars.len(),
            d == chars@.subrange(start as int, chars.len() as int),
            d.len() > 0,
            parse_u64(s@) == (if all_ascii_digits(d) && digits_value(d) <= u64::MAX {
                Some(digits_value(d) as u64)
            } else {
                None
            }),
            all_ascii_digits(d.take(i - start)),
            acc as nat == digits_value(d.take(i - start)),
        decreases chars.len() - i,
    {
        let c = chars[i];
        let ghost k = i - start;
        assert(d.take(k + 1).drop_last() =~= d.take(k));
        assert(d.take(k + 1).last() == c);
        assert(d[k] == c);
        if !('0' <= c && c <= '9') {
            assert(!is_ascii_digit(d[k]));
            return None;
        }
        let dv = (c as u32 - '0' as u32) as u64;
        assert(dv == digit_value(c));
        assert(all_ascii_digits(d.take(k + 1)));
        match acc.checked_mul(10) {
            Some(m) => match m.checked_add(dv) {
                Some(n) => {
                    acc = n;
                },
                None => {
                    proof {
                        lemma_digits_value_prefix(d, k + 1);
                    }
                    return None;
                },
            },
            None => {
                proof {
                    lemma_digits_value_prefix(d, k + 1);
                }
                return None;
            },
        }
        i += 1;
    }
    assert(d.take(d.len() as int) =~= d);
    Some(acc)
}

/// The ASCII digit for `d < 10`.
pub open spec fn digit_char(d: nat) -> char {
    ((d as int) + ('0' as int)) as char
}

/// The decimal representation of `n`, without leading zeros.
pub open spec fn decimal_digits(n: nat) -> Seq<char>
    decreases n,
{
    if n < 10 {
        seq![digit_char(n)]
    } else {
        decimal_digits(n / 10).push(digit_char(n % 10))
    }
}

fn digit_to_char(d: u64) -> (c: char)
    requires
        d < 10,
    ensures
        c == digit_char(d as nat),
{
    if d == 0 { '0' }
    else if d == 1 { '1' }
    else if d == 2 { '2' }
    else if d == 3 { '3' }
    else if d == 4 { '4' }
    else if d == 5 { '5' }
    else if d == 6 { '6' }
    else if d == 7 { '7' }
    else if d == 8 { '8' }
    else { '9' }
}

fn push_decimal(out: &mut String, n: u64)
    ensures
        final(out)@ == old(out)@ + decimal_digits(n as nat),
    decreases n,
{
    if n < 10 {
        out.push(digit_to_char(n));
    } else {
        push_decimal(out, n / 10);
        out.push(digit_to_char(n % 10));
    }
}

/// `u64::to_string`: the decimal representation of `n`.
pub fn u64_to_decimal(n: u64) -> (r: String)
    ensures
        r@ == decimal_digits(n as nat),
{
    let mut s = String::new();
    push_decimal(&mut s, n);
    s
}

proof fn lemma_decimal_digits_value(n: nat)
    ensures
        decimal_digits(n).len() > 0,
        all_ascii_digits(decimal_digits(n)),
        digits_value(decimal_digits(n)) == n,
        decimal_digits(n)[0] != '+',
    decreases n,
{
    let d = (n % 10) as int;
    assert(((d + ('0' as int)) as char) as int == d + ('0' as int));
    assert(digit_value(digit_char(n % 10)) == n % 10);
    let s = decimal_digits(n);
    if n >= 10 {
        lemma_decimal_digits_value(n / 10);
        assert(n == (n / 10) * 10 + n % 10);
        assert(s.drop_last() =~= decimal_digits(n / 10));
        assert(s.last() == digit_char(n % 10));
        assert(digits_value(s) == digits_value(s.drop_last()) * 10 + digit_value(s.last()));
        assert(s[0] == decimal_digits(n / 10)[0]);
    } else {
        assert(s.drop_last() =~= Seq::<char>::empty());
        assert(digits_value(s) == digits_value(s.drop_last()) * 10 + digit_value(s.last()));
    }
}

/// Reading back the decimal representation of a number gives the number.
pub proof fn law_decimal_roundtrip(n: u64)
    ensures
        parse_u64(decimal_digits(n as nat)) == Some(n),
{
    lemma_decimal_digits_value(n as nat);
}

// ---------------------------------------------------------------------------
// Truncation
/// What `safe_truncate` keeps of `s` for a budget of `max` characters: all
/// of it when it fits, else its first `max - 3` characters (none when
/// `max < 3`) followed by `...`.
pub open spec fn truncated(s: Seq<char>, max: nat) -> Seq<char> {
    if s.len() <= max {
        s
    } else {
        s.take(if max >= 3 {
            max - 3
        } else {
            0
        }) + seq!['.', '.', '.']
    }
}

/// Shortens `s` to at most `max_chars` characters at character
/// boundaries, marking a cut with `...`.
pub fn safe_truncate(s: &str, max_chars: usize) -> (r: String)
    ensures
        r@ == truncated(s@, max_chars as nat),
{
    let chars = chars_of(s);
    if chars.len() <= max_chars {
        string_from_chars(&chars, 0, chars.len())
    } else {
        let keep: usize = if max_chars >= 3 {
            max_chars - 3
        } else {
            0
        };
        let mut r = string_from_chars(&chars, 0, keep);
        r.push('.');
        r.push('.');
        r.push('.');
        assert(chars@.subrange(0, keep as int) == s@.take(keep as int));
        r
    }
}

// ---------------------------------------------------------------------------
// Substring search
/// Whether `needle` occurs in `hay` starting at position `i`.
pub open spec fn occurs_at(hay: Seq<char>, needle: Seq<char>, i: int) -> bool {
    0 <= i && i + needle.len() <= hay.len() && hay.subrange(i, i + needle.len()) == needle
}

/// Whether `needle` occurs in `hay`, as `str::contains` tests it.
pub open spec fn contains_chars(hay: Seq<char>, needle: Seq<char>) -> bool {
    exists|i: int| occurs_at(hay, needle, i)
}

/// A needle occurs in a text wherever a window of the text equals it, at
/// the very start or end included.
pub proof fn law_contains_any_window(hay: Seq<char>, needle: Seq<char>, i: int)
    requires
        0 <= i,
        i + needle.len() <= hay.len(),
        hay.subrange(i, i + needle.len()) == needle,
    ensures
        contains_chars(hay, needle),
{
    assert(occurs_at(hay, needle, i));
}

/// A text contains every prefix of itself, itself included.
pub proof fn law_contains_prefix(hay: Seq<char>, n: int)
    requires
        0 <= n <= hay.len(),
    ensures
        contains_chars(hay, hay.take(n)),
        contains_chars(hay, hay),
{
    assert(hay.subrange(0, n) =~= hay.take(n));
    law_contains_any_window(hay, hay.take(n), 0);
    assert(hay.subrange(0, hay.len() as int) =~= hay);
    law_contains_any_window(hay, hay, 0);
}

fn occurs_at_exec(hay: &Vec<char>, needle: &Vec<char>, i: usize) -> (r: bool)
    requires
        i + needle.len() <= hay.len(),
    ensures
        r == occurs_at(hay@, needle@, i as int),
{
    let mut k: usize = 0;
    while k < needle.len()
        invariant
            i + needle.len() <= hay.len(),
            k <= needle.len(),
            forall|j: int| 0 <= j < k ==> hay@[i + j] == needle@[j],
        decreases needle.len() - k,
    {
        if hay[i + k] != needle[k] {
            assert(hay@.subrange(i as int, i + needle.len())[k as int] != needle@[k as int]);
            return false;
        }
        k += 1;
    }
    assert(hay@.subrange(i as int, i + needle.len()) =~= needle@);
    true
}

/// Whether `needle` occurs in `hay`.
pub fn contains_str(hay: &str, needle: &str) -> (r: bool)
    ensures
        r == contains_chars(hay@, needle@),
{
    let h = chars_of(hay);
    let n = chars_of(needle);
    if n.len() == 0 {
        assert(h@.subrange(0, 0) =~= n@);
        assert(occurs_at(hay@, needle@, 0));
        return true;
    }
    if n.len() > h.len() {
        return false;
    }
    let last = h.len() - n.len();
    let mut i: usize = 0;
    while i <= last
        invariant
            last == h.len() - n.len(),
            n.len() > 0,
            h@ == hay@,
            n@ == needle@,
            i <= last + 1,
            forall|j: int| 0 <= j < i ==> !occurs_at(hay@, needle@, j),
        decreases last + 1 - i,
    {
        if occurs_at_exec(&h, &n, i) {
            return true;
        }
        i += 1;
    }
    assert(forall|j: int| occurs_at(hay@, needle@, j) ==> j <= last);
    false
}

/// `str::to_lowercase`: the Unicode lower-case mapping of a string.
pub uninterp spec fn lowercase_of(s: Seq<char>) -> Seq<char>;

/// Calls `str::to_lowercase`. Its result is named `lowercase_of` of the
/// input's characters; the Unicode case tables are not restated here.
#[verifier::external_body]
pub(crate) fn to_lowercase(s: &str) -> (r: String)
    ensures
        r@ == lowercase_of(s@),
{
    s.to_lowercase()
}

} // verus!
