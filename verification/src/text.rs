//! Text: characters, ASCII case, trimming, searching and splitting.

use vstd::prelude::*;

use crate::laws;

verus! {

/// `String::push` appends one character at the end of the string.
pub assume_specification[ String::push ](s: &mut String, c: char)
    ensures
        final(s)@ == old(s)@.push(c),
;

/// The Unicode `White_Space` property.
pub open spec fn is_white_space(c: char) -> bool {
    let v = c as u32;
    ||| 0x9 <= v <= 0xd
    ||| v == 0x20
    ||| v == 0x85
    ||| v == 0xa0
    ||| v == 0x1680
    ||| 0x2000 <= v <= 0x200a
    ||| v == 0x2028
    ||| v == 0x2029
    ||| v == 0x202f
    ||| v == 0x205f
    ||| v == 0x3000
}

/// The general category `Cc`: the control codes.
pub open spec fn is_control(c: char) -> bool {
    ||| c as u32 <= 0x1f
    ||| 0x7f <= c as u32 <= 0x9f
}

/// An ASCII letter in upper case; any other character as it is.
pub open spec fn upper_char(c: char) -> char {
    if 'a' <= c && c <= 'z' {
        ((c as u8) - 32) as u8 as char
    } else {
        c
    }
}

/// An ASCII letter in lower case; any other character as it is.
pub open spec fn lower_char(c: char) -> char {
    if 'A' <= c && c <= 'Z' {
        ((c as u8) + 32) as u8 as char
    } else {
        c
    }
}

pub open spec fn upper(s: Seq<char>) -> Seq<char> {
    s.map_values(|c: char| upper_char(c))
}

pub open spec fn lower(s: Seq<char>) -> Seq<char> {
    s.map_values(|c: char| lower_char(c))
}

/// Whether a character has the `White_Space` property.
pub fn char_is_white_space(c: char) -> (r: bool)
    ensures
        r == is_white_space(c),
{
    let v: u32 = c as u32;
    (v >= 0x9 && v <= 0xd) || v == 0x20 || v == 0x85 || v == 0xa0 || v == 0x1680 || (v >= 0x2000
        && v <= 0x200a) || v == 0x2028 || v == 0x2029 || v == 0x202f || v == 0x205f || v == 0x3000
}

/// Whether a character is a control code.
pub fn char_is_control(c: char) -> (r: bool)
    ensures
        r == is_control(c),
{
    let v: u32 = c as u32;
    v <= 0x1f || (v >= 0x7f && v <= 0x9f)
}

pub fn char_to_upper(c: char) -> (r: char)
    ensures
        r == upper_char(c),
{
    if 'a' <= c && c <= 'z' {
        (c as u8 - 32) as char
    } else {
        c
    }
}

pub fn char_to_lower(c: char) -> (r: char)
    ensures
        r == lower_char(c),
{
    if 'A' <= c && c <= 'Z' {
        (c as u8 + 32) as char
    } else {
        c
    }
}

/// The characters of a text.
pub fn chars_of(s: &str) -> (r: Vec<char>)
    ensures
        r@ == s@,
{
    let mut r: Vec<char> = Vec::new();
    for c in it: s.chars()
        invariant
            r@ == s@.take(it.index()),
            it.seq() == s@,
    {
        r.push(c);
    }
    r
}

/// The text of the characters from `from` up to, not including, `to`.
pub fn text_of(v: &Vec<char>, from: usize, to: usize) -> (r: String)
    requires
        from <= to <= v@.len(),
    ensures
        r@ == v@.subrange(from as int, to as int),
{
    let mut r = String::new();
    let mut i: usize = from;
    while i < to
        invariant
            from <= i <= to <= v@.len(),
            r@ == v@.subrange(from as int, i as int),
        decreases to - i,
    {
        r.push(v[i]);
        i += 1;
        assert(r@ =~= v@.subrange(from as int, i as int));
    }
    r
}

/// Whether two texts are equal.
pub fn same_text(a: &str, b: &str) -> (r: bool)
    ensures
        r == (a@ == b@),
{
    let a = a.to_owned();
    let b = b.to_owned();
    a == b
}

/// A text in ASCII upper case.
pub fn to_upper(s: &str) -> (r: String)
    ensures
        r@ == upper(s@),
{
    let mut r = String::new();
    for c in it: s.chars()
        invariant
            r@ == upper(s@.take(it.index())),
            it.seq() == s@,
    {
        r.push(char_to_upper(c));
        assert(r@ =~= upper(s@.take(it.index() + 1)));
    }
    assert(s@.take(s@.len() as int) =~= s@);
    r
}

/// A text in ASCII lower case.
pub fn to_lower(s: &str) -> (r: String)
    ensures
        r@ == lower(s@),
{
    let mut r = String::new();
    for c in it: s.chars()
        invariant
            r@ == lower(s@.take(it.index())),
            it.seq() == s@,
    {
        r.push(char_to_lower(c));
        assert(r@ =~= lower(s@.take(it.index() + 1)));
    }
    assert(s@.take(s@.len() as int) =~= s@);
    r
}

/// Whether two texts are equal, ASCII case aside.
pub open spec fn same_ignoring_case(a: Seq<char>, b: Seq<char>) -> bool {
    lower(a) == lower(b)
}

pub fn eq_ignore_case(a: &str, b: &str) -> (r: bool)
    ensures
        r == same_ignoring_case(a@, b@),
{
    to_lower(a) == to_lower(b)
}

/// A text without its leading white space.
pub open spec fn trim_start(s: Seq<char>) -> Seq<char>
    decreases s.len(),
{
    if s.len() > 0 && is_white_space(s[0]) {
        trim_start(s.drop_first())
    } else {
        s
    }
}

/// A text without its trailing white space.
pub open spec fn trim_end(s: Seq<char>) -> Seq<char>
    decreases s.len(),
{
    if s.len() > 0 && is_white_space(s.last()) {
        trim_end(s.drop_last())
    } else {
        s
    }
}

/// A text without white space around it.
pub open spec fn trimmed(s: Seq<char>) -> Seq<char> {
    trim_end(trim_start(s))
}

/// Drops the white space around a text.
pub fn trim(s: &str) -> (r: String)
    ensures
        r@ == trimmed(s@),
{
    let v = chars_of(s);
    let mut from: usize = 0;
    assert(v@.subrange(0, v@.len() as int) =~= v@);
    while from < v.len() && char_is_white_space(v[from])
        invariant
            from <= v@.len(),
            v@ == s@,
            trim_start(v@.subrange(from as int, v@.len() as int)) == trim_start(s@),
        decreases v@.len() - from,
    {
        proof {
            let rest = v@.subrange(from as int, v@.len() as int);
            assert(rest.drop_first() =~= v@.subrange(from + 1, v@.len() as int));
        }
        from += 1;
    }
    let mut to: usize = v.len();
    while to > from && char_is_white_space(v[to - 1])
        invariant
            from <= to <= v@.len(),
            v@ == s@,
            trim_end(v@.subrange(from as int, to as int)) == trimmed(s@),
        decreases to,
    {
        proof {
            let rest = v@.subrange(from as int, to as int);
            assert(rest.drop_last() =~= v@.subrange(from as int, to - 1));
        }
        to -= 1;
    }
    text_of(&v, from, to)
}

/// The first place of a character in a text, or the length where it has none.
pub open spec fn char_index(s: Seq<char>, c: char) -> int
    decreases s.len(),
{
    if s.len() == 0 || s[0] == c {
        0
    } else {
        1 + char_index(s.drop_first(), c)
    }
}

pub proof fn lemma_char_index(s: Seq<char>, c: char)
    ensures
        0 <= char_index(s, c) <= s.len(),
        forall|j: int| 0 <= j < char_index(s, c) ==> s[j] != c,
        char_index(s, c) < s.len() ==> s[char_index(s, c)] == c,
    decreases s.len(),
{
    if s.len() > 0 && s[0] != c {
        let rest = s.drop_first();
        lemma_char_index(rest, c);
        assert forall|j: int| 0 <= j < char_index(s, c) implies s[j] != c by {
            if j > 0 {
                assert(s[j] == rest[j - 1]);
            }
        }
    }
}

/// `char_index` is the only place that holds the character with none before it.
pub proof fn lemma_char_index_is(s: Seq<char>, c: char, i: int)
    requires
        0 <= i <= s.len(),
        forall|j: int| 0 <= j < i ==> s[j] != c,
        i < s.len() ==> s[i] == c,
    ensures
        char_index(s, c) == i,
{
    lemma_char_index(s, c);
}

/// The text before and after the first occurrence of a character.
pub open spec fn split_once(s: Seq<char>, c: char) -> Option<(Seq<char>, Seq<char>)> {
    let i = char_index(s, c);
    if i < s.len() {
        Some((s.take(i), s.skip(i + 1)))
    } else {
        None
    }
}

/// Splits a text at the first occurrence of a character.
pub fn split_at_char(s: &str, c: char) -> (r: Option<(String, String)>)
    ensures
        match r {
            Some(parts) => split_once(s@, c) == Some((parts.0@, parts.1@)),
            None => split_once(s@, c) is None,
        },
{
    let v = chars_of(s);
    let mut i: usize = 0;
    while i < v.len() && v[i] != c
        invariant
            i <= v@.len(),
            forall|j: int| 0 <= j < i ==> v@[j] != c,
        decreases v@.len() - i,
    {
        i += 1;
    }
    proof {
        lemma_char_index_is(v@, c, i as int);
    }
    if i < v.len() {
        let head = text_of(&v, 0, i);
        let tail = text_of(&v, i + 1, v.len());
        assert(head@ =~= s@.take(i as int));
        assert(tail@ =~= s@.skip(i + 1));
        Some((head, tail))
    } else {
        None
    }
}

/// Whether `pattern` stands in `s` at place `i`.
pub open spec fn occurs_at(s: Seq<char>, pattern: Seq<char>, i: int) -> bool {
    &&& 0 <= i
    &&& i + pattern.len() <= s.len()
    &&& s.subrange(i, i + pattern.len()) == pattern
}

pub open spec fn starts_with(s: Seq<char>, prefix: Seq<char>) -> bool {
    occurs_at(s, prefix, 0)
}

pub open spec fn ends_with(s: Seq<char>, suffix: Seq<char>) -> bool {
    occurs_at(s, suffix, s.len() - suffix.len())
}

/// The first place at or after `from` where `pattern` occurs.
pub open spec fn find_from(s: Seq<char>, pattern: Seq<char>, from: int) -> Option<int>
    decreases s.len() + 1 - from,
{
    if from + pattern.len() > s.len() {
        None
    } else if occurs_at(s, pattern, from) {
        Some(from)
    } else {
        find_from(s, pattern, from + 1)
    }
}

/// The first occurrence of a pattern is the one that has none before it.
pub(crate) proof fn lemma_find_from(s: Seq<char>, pattern: Seq<char>, from: int, at: int)
    requires
        0 <= from <= at,
        occurs_at(s, pattern, at),
        forall|i: int| from <= i < at ==> !#[trigger] occurs_at(s, pattern, i),
    ensures
        find_from(s, pattern, from) == Some(at),
    decreases at - from,
{
    if from < at {
        lemma_find_from(s, pattern, from + 1, at);
    }
}

fn matches_at(s: &Vec<char>, pattern: &Vec<char>, i: usize) -> (r: bool)
    requires
        i + pattern@.len() <= s@.len(),
    ensures
        r == occurs_at(s@, pattern@, i as int),
{
    let n: usize = s.len();
    let mut k: usize = 0;
    while k < pattern.len()
        invariant
            k <= pattern@.len(),
            i + pattern@.len() <= s@.len(),
            n == s@.len(),
            forall|j: int| 0 <= j < k ==> s@[i + j] == pattern@[j],
        decreases pattern@.len() - k,
    {
        if s[i + k] != pattern[k] {
            assert(s@.subrange(i as int, i + pattern@.len())[k as int] != pattern@[k as int]);
            return false;
        }
        k += 1;
    }
    assert(s@.subrange(i as int, i + pattern@.len()) =~= pattern@);
    true
}

/// The text after a prefix, where the text starts with it.
pub fn strip_prefix(s: &str, prefix: &str) -> (r: Option<String>)
    ensures
        match r {
            Some(rest) => starts_with(s@, prefix@) && rest@ == s@.skip(prefix@.len() as int),
            None => !starts_with(s@, prefix@),
        },
{
    let v = chars_of(s);
    let p = chars_of(prefix);
    if p.len() <= v.len() && matches_at(&v, &p, 0) {
        let rest = text_of(&v, p.len(), v.len());
        assert(rest@ =~= s@.skip(prefix@.len() as int));
        Some(rest)
    } else {
        None
    }
}

/// Whether a text ends with a suffix.
pub fn has_suffix(s: &str, suffix: &str) -> (r: bool)
    ensures
        r == ends_with(s@, suffix@),
{
    let v = chars_of(s);
    let p = chars_of(suffix);
    p.len() <= v.len() && matches_at(&v, &p, v.len() - p.len())
}

/// The text after the first occurrence of a pattern.
pub open spec fn after_first(s: Seq<char>, pattern: Seq<char>) -> Option<Seq<char>> {
    match find_from(s, pattern, 0) {
        Some(i) => Some(s.skip(i + pattern.len())),
        None => None,
    }
}

pub fn text_after(s: &str, pattern: &str) -> (r: Option<String>)
    ensures
        match r {
            Some(rest) => after_first(s@, pattern@) == Some(rest@),
            None => after_first(s@, pattern@) is None,
        },
{
    let v = chars_of(s);
    let p = chars_of(pattern);
    let mut i: usize = 0;
    if p.len() > v.len() {
        return None;
    }
    let n: usize = v.len();
    let last: usize = n - p.len();
    loop
        invariant
            n == v@.len(),
            v@ == s@,
            p@ == pattern@,
            last == v@.len() - p@.len(),
            i <= last,
            find_from(s@, pattern@, i as int) == find_from(s@, pattern@, 0),
        decreases last - i,
    {
        if matches_at(&v, &p, i) {
            let rest = text_of(&v, i + p.len(), n);
            assert(rest@ =~= s@.skip(i + pattern@.len()));
            return Some(rest);
        }
        if i == last {
            assert(find_from(s@, pattern@, i + 1) is None);
            return None;
        }
        i += 1;
    }
}

/// The last place of a character in a text, or -1 where it has none.
pub open spec fn last_char_index(s: Seq<char>, c: char) -> int
    decreases s.len(),
{
    if s.len() == 0 || s.last() == c {
        s.len() - 1
    } else {
        last_char_index(s.drop_last(), c)
    }
}

pub(crate) proof fn lemma_last_char_index(s: Seq<char>, c: char)
    ensures
        -1 <= last_char_index(s, c) < s.len(),
        last_char_index(s, c) >= 0 ==> s[last_char_index(s, c)] == c,
        forall|k: int| last_char_index(s, c) < k < s.len() ==> #[trigger] s[k] != c,
    decreases s.len(),
{
    if s.len() > 0 && s.last() != c {
        let shorter = s.drop_last();
        lemma_last_char_index(shorter, c);
        assert forall|k: int| last_char_index(s, c) < k < s.len() implies #[trigger] s[k] != c by {
            if k < shorter.len() {
                assert(shorter[k] == s[k]);
            }
        }
    }
}

/// The text after the last occurrence of a character.
pub open spec fn after_last(s: Seq<char>, c: char) -> Option<Seq<char>> {
    let i = last_char_index(s, c);
    if i >= 0 {
        Some(s.skip(i + 1))
    } else {
        None
    }
}

pub fn text_after_last(s: &str, c: char) -> (r: Option<String>)
    ensures
        match r {
            Some(rest) => after_last(s@, c) == Some(rest@),
            None => after_last(s@, c) is None,
        },
{
    let v = chars_of(s);
    let n: usize = v.len();
    let mut i: usize = n;
    assert(v@.take(n as int) =~= v@);
    while i > 0
        invariant
            i <= n == v@.len(),
            v@ == s@,
            last_char_index(s@.take(i as int), c) == last_char_index(s@, c),
        decreases i,
    {
        if v[i - 1] == c {
            let rest = text_of(&v, i, n);
            assert(rest@ =~= s@.skip(i as int));
            return Some(rest);
        }
        assert(s@.take(i as int).drop_last() =~= s@.take(i - 1));
        i -= 1;
    }
    None
}

pub open spec fn is_bracket(c: char) -> bool {
    c == '[' || c == ']'
}

pub open spec fn unbracket_start(s: Seq<char>) -> Seq<char>
    decreases s.len(),
{
    if s.len() > 0 && is_bracket(s[0]) {
        unbracket_start(s.drop_first())
    } else {
        s
    }
}

pub open spec fn unbracket_end(s: Seq<char>) -> Seq<char>
    decreases s.len(),
{
    if s.len() > 0 && is_bracket(s.last()) {
        unbracket_end(s.drop_last())
    } else {
        s
    }
}

/// A text without square brackets around it.
pub open spec fn unbracketed(s: Seq<char>) -> Seq<char> {
    unbracket_end(unbracket_start(s))
}

/// Drops the square brackets around a text.
pub fn trim_brackets(s: &str) -> (r: String)
    ensures
        r@ == unbracketed(s@),
{
    let v = chars_of(s);
    let mut from: usize = 0;
    assert(v@.subrange(0, v@.len() as int) =~= v@);
    while from < v.len() && (v[from] == '[' || v[from] == ']')
        invariant
            from <= v@.len(),
            v@ == s@,
            unbracket_start(v@.subrange(from as int, v@.len() as int)) == unbracket_start(s@),
        decreases v@.len() - from,
    {
        proof {
            let rest = v@.subrange(from as int, v@.len() as int);
            assert(rest.drop_first() =~= v@.subrange(from + 1, v@.len() as int));
        }
        from += 1;
    }
    let mut to: usize = v.len();
    while to > from && (v[to - 1] == '[' || v[to - 1] == ']')
        invariant
            from <= to <= v@.len(),
            v@ == s@,
            unbracket_end(v@.subrange(from as int, to as int)) == unbracketed(s@),
        decreases to,
    {
        proof {
            let rest = v@.subrange(from as int, to as int);
            assert(rest.drop_last() =~= v@.subrange(from as int, to - 1));
        }
        to -= 1;
    }
    text_of(&v, from, to)
}

/// Whether every character of a text is an ASCII digit.
pub open spec fn all_digits(s: Seq<char>) -> bool {
    forall|k: int| 0 <= k < s.len() ==> '0' <= #[trigger] s[k] && s[k] <= '9'
}

pub fn is_all_digits(s: &str) -> (r: bool)
    ensures
        r == all_digits(s@),
{
    let v = chars_of(s);
    let mut i: usize = 0;
    while i < v.len()
        invariant
            i <= v@.len(),
            v@ == s@,
            forall|k: int| 0 <= k < i ==> '0' <= #[trigger] s@[k] && s@[k] <= '9',
        decreases v@.len() - i,
    {
        if !('0' <= v[i] && v[i] <= '9') {
            return false;
        }
        i += 1;
    }
    true
}

/// A number in decimal digits.
pub open spec fn decimal(n: nat) -> Seq<char>
    decreases n,
{
    if n < 10 {
        seq![(48 + n) as u8 as char]
    } else {
        decimal(n / 10).push((48 + n % 10) as u8 as char)
    }
}

pub fn decimal_text(n: u64) -> (r: String)
    ensures
        r@ == decimal(n as nat),
    decreases n,
{
    let last: u8 = (n % 10) as u8;
    let mut r = if n < 10 {
        String::new()
    } else {
        decimal_text(n / 10)
    };
    r.push((48 + last) as char);
    assert(r@ =~= decimal(n as nat));
    r
}

/// Two texts, one after the other.
pub fn joined(a: &str, b: &str) -> (r: String)
    ensures
        r@ == a@ + b@,
{
    let mut r = a.to_owned();
    r.append(b);
    r
}

/// Lower case changes the letters `A` to `Z` only, each to the one 32 places on, and upper case takes
/// them back; the text keeps its length.
pub proof fn law_case_is_that_of_ascii(s: Seq<char>, k: int)
    requires
        0 <= k < s.len(),
    ensures
        lower(s).len() == s.len(),
        upper(s).len() == s.len(),
        lower(s)[k] as u32 == (if 65 <= s[k] as u32 && s[k] as u32 <= 90 {
            s[k] as u32 + 32
        } else {
            s[k] as int
        }),
        upper(s)[k] as u32 == (if 97 <= s[k] as u32 && s[k] as u32 <= 122 {
            s[k] as u32 - 32
        } else {
            s[k] as int
        }),
{
}

/// Whether two characters are the same letter in upper and in lower case.
pub open spec fn is_letter_in_both_cases(a: char, b: char) -> bool {
    ||| 65 <= a as u32 && a as u32 <= 90 && b as u32 == a as u32 + 32
    ||| 65 <= b as u32 && b as u32 <= 90 && a as u32 == b as u32 + 32
}

/// Whether two texts have, place by place, the same character but for the case of an ASCII letter.
pub open spec fn match_but_for_case(a: Seq<char>, b: Seq<char>) -> bool {
    &&& a.len() == b.len()
    &&& forall|k: int|
        0 <= k < a.len() ==> (#[trigger] a[k]) == b[k] || is_letter_in_both_cases(a[k], b[k])
}

/// Texts are the same in lower case exactly where they match but for the case of ASCII letters.
pub proof fn law_case_is_ignored(a: Seq<char>, b: Seq<char>)
    ensures
        same_ignoring_case(a, b) <==> match_but_for_case(a, b),
        lower(a) == lower(b) <==> match_but_for_case(a, b),
{
    if match_but_for_case(a, b) {
        assert forall|k: int| 0 <= k < a.len() implies lower(a)[k] == lower(b)[k] by {
            assert(a[k] == b[k] || is_letter_in_both_cases(a[k], b[k]));
        }
        assert(lower(a) =~= lower(b));
    }
    if lower(a) == lower(b) {
        assert(lower(a).len() == a.len() && lower(b).len() == b.len());
        assert forall|k: int| 0 <= k < a.len() implies (#[trigger] a[k]) == b[k]
            || is_letter_in_both_cases(a[k], b[k]) by {
            assert(lower(a)[k] == lower(b)[k]);
            assert(lower(a)[k] == lower_char(a[k]) && lower(b)[k] == lower_char(b[k]));
        }
    }
}

/// Trimming takes away the white space around a text, all of it and nothing else.
pub proof fn law_trimming_is_exact(before: Seq<char>, core: Seq<char>, after: Seq<char>)
    requires
        forall|k: int| 0 <= k < before.len() ==> is_white_space(#[trigger] before[k]),
        forall|k: int| 0 <= k < after.len() ==> is_white_space(#[trigger] after[k]),
        core.len() > 0 ==> !is_white_space(core[0]) && !is_white_space(core.last()),
    ensures
        trimmed(before + core + after) == core,
{
    assert(before + core + after =~= before + (core + after));
    laws::lemma_trim_start_pad(before, core + after);
    if core.len() > 0 {
        assert((core + after)[0] == core[0]);
        laws::lemma_trim_end_pad(core, after);
    } else {
        assert(core + after =~= after + core);
        laws::lemma_trim_start_pad(after, core);
        assert(after + core =~= after);
        assert(core =~= Seq::<char>::empty());
    }
}

/// A text is split at the first place of a character, and only where it has one.
pub proof fn law_splitting_is_exact(before: Seq<char>, c: char, after: Seq<char>)
    requires
        !before.contains(c),
    ensures
        split_once(before + seq![c] + after, c) == Some((before, after)),
        split_once(before, c) is None,
{
    let s = before + seq![c] + after;
    assert forall|i: int| 0 <= i < before.len() implies s[i] != c by {
        assert(s[i] == before[i]);
    }
    assert(s[before.len() as int] == c);
    lemma_char_index_is(s, c, before.len() as int);
    assert(s.take(before.len() as int) =~= before);
    assert(s.skip(before.len() as int + 1) =~= after);
    lemma_char_index(before, c);
}

/// What follows a pattern is what stands behind its first place: that with the pattern nowhere before
/// it. Without such a place there is nothing.
pub proof fn law_the_first_place_counts(before: Seq<char>, pattern: Seq<char>, after: Seq<char>)
    requires
        forall|i: int|
            #![trigger (before + pattern + after).subrange(i, i + pattern.len())]
            0 <= i < before.len() ==> (before + pattern + after).subrange(i, i + pattern.len())
                != pattern,
    ensures
        after_first(before + pattern + after, pattern) == Some(after),
{
    let s = before + pattern + after;
    let at = before.len() as int;
    assert(s.subrange(at, at + pattern.len()) =~= pattern);
    lemma_find_from(s, pattern, 0, at);
    assert(s.skip(at + pattern.len()) =~= after);
}

proof fn lemma_find_nothing(s: Seq<char>, pattern: Seq<char>, from: int)
    requires
        0 <= from,
        forall|i: int|
            #![trigger s.subrange(i, i + pattern.len())]
            0 <= i <= s.len() - pattern.len() ==> s.subrange(i, i + pattern.len()) != pattern,
    ensures
        find_from(s, pattern, from) is None,
    decreases s.len() + 1 - from,
{
    if from + pattern.len() <= s.len() {
        lemma_find_nothing(s, pattern, from + 1);
    }
}

/// Nothing follows a pattern that stands nowhere.
pub proof fn law_a_missing_pattern_is_not_found(s: Seq<char>, pattern: Seq<char>)
    requires
        forall|i: int|
            #![trigger s.subrange(i, i + pattern.len())]
            0 <= i <= s.len() - pattern.len() ==> s.subrange(i, i + pattern.len()) != pattern,
    ensures
        after_first(s, pattern) is None,
{
    lemma_find_nothing(s, pattern, 0);
}

/// What follows the last place of a character is what stands behind it and has it no more.
pub proof fn law_the_last_place_counts(before: Seq<char>, c: char, after: Seq<char>)
    requires
        !after.contains(c),
    ensures
        after_last(before + seq![c] + after, c) == Some(after),
        after_last(after, c) is None,
{
    let s = before + seq![c] + after;
    lemma_last_char_index(s, c);
    lemma_last_char_index(after, c);
    assert(s[before.len() as int] == c);
    assert forall|k: int| before.len() < k < s.len() implies #[trigger] s[k] != c by {
        assert(s[k] == after[k - before.len() - 1]);
    }
    assert(s.skip(before.len() as int + 1) =~= after);
}

proof fn lemma_unbracket_start(pad: Seq<char>, s: Seq<char>)
    requires
        forall|k: int| 0 <= k < pad.len() ==> (#[trigger] pad[k]) == '[' || pad[k] == ']',
    ensures
        unbracket_start(pad + s) == unbracket_start(s),
    decreases pad.len(),
{
    if pad.len() > 0 {
        assert((pad + s)[0] == pad[0]);
        assert((pad + s).drop_first() =~= pad.drop_first() + s);
        lemma_unbracket_start(pad.drop_first(), s);
    } else {
        assert(pad + s =~= s);
    }
}

proof fn lemma_unbracket_end(s: Seq<char>, pad: Seq<char>)
    requires
        forall|k: int| 0 <= k < pad.len() ==> (#[trigger] pad[k]) == '[' || pad[k] == ']',
    ensures
        unbracket_end(s + pad) == unbracket_end(s),
    decreases pad.len(),
{
    if pad.len() > 0 {
        assert((s + pad).last() == pad.last());
        assert((s + pad).drop_last() =~= s + pad.drop_last());
        lemma_unbracket_end(s, pad.drop_last());
    } else {
        assert(s + pad =~= s);
    }
}

/// The square brackets around a text are taken away, all of them and nothing else.
pub proof fn law_brackets_are_taken_away(before: Seq<char>, core: Seq<char>, after: Seq<char>)
    requires
        forall|k: int| 0 <= k < before.len() ==> (#[trigger] before[k]) == '[' || before[k] == ']',
        forall|k: int| 0 <= k < after.len() ==> (#[trigger] after[k]) == '[' || after[k] == ']',
        core.len() > 0 ==> core[0] != '[' && core[0] != ']' && core.last() != '[' && core.last()
            != ']',
    ensures
        unbracketed(before + core + after) == core,
{
    assert(before + core + after =~= before + (core + after));
    lemma_unbracket_start(before, core + after);
    if core.len() > 0 {
        assert((core + after)[0] == core[0]);
        lemma_unbracket_end(core, after);
    } else {
        assert(core + after =~= after + core);
        lemma_unbracket_start(after, core);
        assert(core =~= Seq::<char>::empty());
    }
}

/// The number that decimal digits stand for.
pub open spec fn number(digits: Seq<char>) -> int
    decreases digits.len(),
{
    if digits.len() == 0 {
        0
    } else {
        10 * number(digits.drop_last()) + (digits.last() as int - 48)
    }
}

/// A number is written in the digits `0` to `9` that stand for it, and without a leading zero.
pub proof fn law_numbers_are_read_back(n: nat)
    ensures
        number(decimal(n)) == n,
        decimal(n).len() > 0,
        forall|k: int|
            0 <= k < decimal(n).len() ==> 48 <= (#[trigger] decimal(n)[k]) as u32 && decimal(n)[k] as u32
                <= 57,
        n >= 10 ==> decimal(n)[0] != '0',
        n > 0 ==> decimal(n)[0] != '0',
    decreases n,
{
    if n >= 10 {
        law_numbers_are_read_back(n / 10);
        let head = decimal(n / 10);
        assert(decimal(n).drop_last() =~= head);
        assert(decimal(n)[0] == head[0]);
    } else {
        assert(decimal(n).drop_last() =~= Seq::<char>::empty());
        assert(number(decimal(n).drop_last()) == 0);
    }
}

/// A text starts with another where it goes on from it, and ends with another where it leads to it.
pub proof fn law_starts_and_ends_are_exact(a: Seq<char>, b: Seq<char>, s: Seq<char>, part: Seq<char>)
    ensures
        starts_with(a + b, a),
        ends_with(a + b, b),
        starts_with(s, part) ==> s == part + s.skip(part.len() as int),
        ends_with(s, part) ==> s == s.take(s.len() - part.len()) + part,
{
    assert((a + b).subrange(0, a.len() as int) =~= a);
    assert((a + b).subrange(a.len() as int, (a + b).len() as int) =~= b);
    if starts_with(s, part) {
        assert(s =~= s.subrange(0, part.len() as int) + s.skip(part.len() as int));
    }
    if ends_with(s, part) {
        let at = s.len() - part.len();
        assert(s =~= s.take(at) + s.subrange(at, at + part.len()));
    }
}

/// A text is all digits where each of its characters is one of `0` to `9`.
pub proof fn law_digits_are_ascii(s: Seq<char>)
    ensures
        all_digits(s) <==> forall|k: int|
            0 <= k < s.len() ==> 48 <= (#[trigger] s[k]) as int && s[k] as int <= 57,
{
}

} // verus!
