//! Text helpers over the characters of a string: trimming, searching, replacing,
//! capitals and decimal digits.
use vstd::prelude::*;
use vstd::string::*;

verus! {

/// `String::push` appends one character at the end.
pub assume_specification[ String::push ](s: &mut String, c: char)
    ensures
        final(s)@ == old(s)@.push(c),
;

/// A class of characters that trimming removes from the ends of a text.
#[derive(Clone, Copy)]
pub enum Class {
    /// The Unicode `White_Space` property.
    Whitespace,
    /// Exactly this character.
    Only(char),
}

impl Class {
    /// Whether `c` belongs to the class.
    pub open spec fn has(self, c: char) -> bool {
        match self {
            Class::Whitespace => is_whitespace(c),
            Class::Only(d) => c == d,
        }
    }

    fn contains(&self, c: char) -> (found: bool)
        ensures
            found == self.has(c),
    {
        match self {
            Class::Whitespace => {
                let u: u32 = c as u32;
                (0x09 <= u && u <= 0x0d) || u == 0x20 || u == 0x85 || u == 0xa0 || u == 0x1680
                    || (0x2000 <= u && u <= 0x200a) || u == 0x2028 || u == 0x2029 || u == 0x202f
                    || u == 0x205f || u == 0x3000
            },
            Class::Only(d) => c == *d,
        }
    }
}

/// The code points with the Unicode `White_Space` property.
pub open spec fn is_whitespace(c: char) -> bool {
    let u = c as u32;
    ||| 0x09 <= u <= 0x0d
    ||| u == 0x20
    ||| u == 0x85
    ||| u == 0xa0
    ||| u == 0x1680
    ||| 0x2000 <= u <= 0x200a
    ||| u == 0x2028
    ||| u == 0x2029
    ||| u == 0x202f
    ||| u == 0x205f
    ||| u == 0x3000
}

/// `s` without its leading characters of `class`.
pub open spec fn trim_start(s: Seq<char>, class: Class) -> Seq<char>
    decreases s.len(),
{
    if s.len() > 0 && class.has(s[0]) {
        trim_start(s.drop_first(), class)
    } else {
        s
    }
}

/// `s` without its trailing characters of `class`.
pub open spec fn trim_end(s: Seq<char>, class: Class) -> Seq<char>
    decreases s.len(),
{
    if s.len() > 0 && class.has(s.last()) {
        trim_end(s.drop_last(), class)
    } else {
        s
    }
}

/// What is left after trimming does not end in a trimmed character.
pub proof fn lemma_trim_end_last(s: Seq<char>, class: Class)
    ensures
        trim_end(s, class).len() > 0 ==> !class.has(trim_end(s, class).last()),
    decreases s.len(),
{
    if s.len() > 0 && class.has(s.last()) {
        lemma_trim_end_last(s.drop_last(), class);
    }
}

/// `s` without the characters of `class` at either end.
pub open spec fn trim_both(s: Seq<char>, class: Class) -> Seq<char> {
    trim_end(trim_start(s, class), class)
}

/// `s` without the white space at either end.
pub open spec fn trimmed(s: Seq<char>) -> Seq<char> {
    trim_both(s, Class::Whitespace)
}

/// A text that may be missing, by its characters.
pub open spec fn opt_text(t: Option<String>) -> Option<Seq<char>> {
    match t {
        Some(t) => Some(t@),
        None => None,
    }
}

/// A borrowed text that may be missing, by its characters.
pub open spec fn opt_str(t: Option<&str>) -> Option<Seq<char>> {
    match t {
        Some(t) => Some(t@),
        None => None,
    }
}

/// The characters of `s`, in order.
pub fn chars_of(s: &str) -> (cs: Vec<char>)
    ensures
        cs@ == s@,
{
    broadcast use axiom_spec_iter;

    let mut cs: Vec<char> = Vec::new();
    for c in it: s.chars()
        invariant
            it.seq() == s@,
            cs@ == s@.take(it.index() as int),
    {
        assert(s@.take(it.index() as int + 1) =~= s@.take(it.index() as int).push(c));
        cs.push(c);
    }
    assert(s@.take(s@.len() as int) =~= s@);
    cs
}

/// The string whose characters are `cs`.
pub fn string_of(cs: &[char]) -> (s: String)
    ensures
        s@ == cs@,
{
    let mut s: String = String::new();
    for i in 0..cs.len()
        invariant
            s@ == cs@.take(i as int),
    {
        assert(cs@.take(i as int + 1) =~= cs@.take(i as int).push(cs@[i as int]));
        s.push(cs[i]);
    }
    assert(cs@.take(cs@.len() as int) =~= cs@);
    s
}

/// Where the text that trimming keeps begins and ends.
fn trim_bounds(cs: &Vec<char>, class: Class) -> (ends: (usize, usize))
    ensures
        ends.0 <= ends.1 <= cs@.len(),
        trim_both(cs@, class) == cs@.subrange(ends.0 as int, ends.1 as int),
{
    let mut i: usize = 0;
    assert(cs@.skip(0) =~= cs@);
    while i < cs.len() && class.contains(cs[i])
        invariant
            i <= cs@.len(),
            trim_start(cs@, class) == trim_start(cs@.skip(i as int), class),
        decreases cs@.len() - i,
    {
        assert(cs@.skip(i as int).drop_first() =~= cs@.skip(i as int + 1));
        i += 1;
    }
    let j = trim_end_bound(cs, i, class);
    (i, j)
}

/// Where the text from `i` on ends once trailing characters of `class` are cut.
fn trim_end_bound(cs: &Vec<char>, i: usize, class: Class) -> (j: usize)
    requires
        i <= cs@.len(),
    ensures
        i <= j <= cs@.len(),
        trim_end(cs@.skip(i as int), class) == cs@.subrange(i as int, j as int),
{
    let mut j: usize = cs.len();
    assert(cs@.subrange(i as int, j as int) =~= cs@.skip(i as int));
    while j > i && class.contains(cs[j - 1])
        invariant
            i <= j <= cs@.len(),
            trim_end(cs@.skip(i as int), class) == trim_end(
                cs@.subrange(i as int, j as int),
                class,
            ),
        decreases j,
    {
        assert(cs@.subrange(i as int, j as int).drop_last() =~= cs@.subrange(
            i as int,
            j as int - 1,
        ));
        j -= 1;
    }
    j
}

/// `s` without the white space at either end.
pub fn trim(s: &str) -> (t: String)
    ensures
        t@ == trimmed(s@),
{
    let cs = chars_of(s);
    let (i, j) = trim_bounds(&cs, Class::Whitespace);
    string_of(vstd::slice::slice_subrange(cs.as_slice(), i, j))
}

/// `s` without the characters `c` at either end.
pub fn trim_matches(s: &str, c: char) -> (t: String)
    ensures
        t@ == trim_both(s@, Class::Only(c)),
{
    let cs = chars_of(s);
    let (i, j) = trim_bounds(&cs, Class::Only(c));
    string_of(vstd::slice::slice_subrange(cs.as_slice(), i, j))
}

/// `s` without the characters `c` at its end.
pub fn trim_end_matches(s: &str, c: char) -> (t: String)
    ensures
        t@ == trim_end(s@, Class::Only(c)),
{
    let cs = chars_of(s);
    let j = trim_end_bound(&cs, 0, Class::Only(c));
    assert(cs@.skip(0) =~= cs@);
    string_of(vstd::slice::slice_subrange(cs.as_slice(), 0, j))
}

/// Whether two texts hold the same characters.
pub fn same_text(a: &str, b: &str) -> (same: bool)
    ensures
        same == (a@ == b@),
{
    a.to_owned() == b.to_owned()
}

/// `a` followed by `b`.
pub fn concat(a: &str, b: &str) -> (s: String)
    ensures
        s@ == a@ + b@,
{
    let mut s = a.to_owned();
    s.append(b);
    s
}

/// Whether `s` begins with `prefix`.
pub fn starts_with(s: &str, prefix: &str) -> (found: bool)
    ensures
        found == prefix@.is_prefix_of(s@),
{
    let cs = chars_of(s);
    let ps = chars_of(prefix);
    if ps.len() > cs.len() {
        return false;
    }
    for i in 0..ps.len()
        invariant
            cs@ == s@,
            ps@ == prefix@,
            ps@.len() <= cs@.len(),
            forall|k: int| 0 <= k < i ==> ps@[k] == cs@[k],
    {
        if ps[i] != cs[i] {
            assert(s@.subrange(0, ps@.len() as int)[i as int] != ps@[i as int]);
            return false;
        }
    }
    assert(ps@ =~= cs@.subrange(0, ps@.len() as int));
    true
}

/// What follows `prefix` in `s`, where `s` begins with it.
pub fn strip_prefix(s: &str, prefix: &str) -> (rest: Option<String>)
    ensures
        match rest {
            Some(t) => prefix@.is_prefix_of(s@) && t@ == s@.skip(prefix@.len() as int),
            None => !prefix@.is_prefix_of(s@),
        },
{
    if starts_with(s, prefix) {
        let cs = chars_of(s);
        let n: usize = chars_of(prefix).len();
        assert(cs@.subrange(n as int, cs@.len() as int) =~= s@.skip(n as int));
        Some(string_of(vstd::slice::slice_subrange(cs.as_slice(), n, cs.len())))
    } else {
        None
    }
}

/// Whether `part` stands somewhere in `s`.
pub open spec fn has_part(s: Seq<char>, part: Seq<char>) -> bool {
    exists|i: int|
        0 <= i <= s.len() - part.len() && #[trigger] s.subrange(i, i + part.len()) == part
}

/// Whether `ps` stands in `cs` at position `i`.
fn stands_at(cs: &Vec<char>, ps: &Vec<char>, i: usize) -> (found: bool)
    requires
        i + ps@.len() <= cs@.len(),
    ensures
        found == (cs@.subrange(i as int, i + ps@.len()) == ps@),
{
    let n: usize = cs.len();
    for j in 0..ps.len()
        invariant
            n == cs@.len(),
            i + ps@.len() <= n,
            forall|k: int| 0 <= k < j ==> cs@[i + k] == ps@[k],
    {
        if cs[i + j] != ps[j] {
            assert(cs@.subrange(i as int, i + ps@.len())[j as int] != ps@[j as int]);
            return false;
        }
    }
    assert(cs@.subrange(i as int, i + ps@.len()) =~= ps@);
    true
}

/// Whether `part` stands somewhere in `s`.
pub fn contains(s: &str, part: &str) -> (found: bool)
    ensures
        found == has_part(s@, part@),
{
    let cs = chars_of(s);
    let ps = chars_of(part);
    if ps.len() > cs.len() {
        return false;
    }
    let last: usize = cs.len() - ps.len();
    for i in 0..last
        invariant
            cs@ == s@,
            ps@ == part@,
            last + ps@.len() == cs@.len(),
            forall|k: int| 0 <= k < i ==> #[trigger] s@.subrange(k, k + part@.len()) != part@,
    {
        if stands_at(&cs, &ps, i) {
            return true;
        }
    }
    stands_at(&cs, &ps, last)
}

/// `s` with every `from` replaced by `to`.
pub open spec fn replaced(s: Seq<char>, from: char, to: char) -> Seq<char> {
    s.map_values(
        |c: char|
            if c == from {
                to
            } else {
                c
            },
    )
}

/// `s` with every `from` replaced by `to`.
pub fn replace(s: &str, from: char, to: char) -> (t: String)
    ensures
        t@ == replaced(s@, from, to),
{
    let cs = chars_of(s);
    let mut t = String::new();
    for i in 0..cs.len()
        invariant
            cs@ == s@,
            t@ == replaced(s@.take(i as int), from, to),
    {
        assert(replaced(s@.take(i as int + 1), from, to) =~= replaced(
            s@.take(i as int),
            from,
            to,
        ).push(
            if s@[i as int] == from {
                to
            } else {
                s@[i as int]
            },
        ));
        if cs[i] == from {
            t.push(to);
        } else {
            t.push(cs[i]);
        }
    }
    assert(s@.take(s@.len() as int) =~= s@);
    t
}

/// `c` as an ASCII capital where it is a small ASCII letter.
pub open spec fn upper_char(c: char) -> char {
    if 'a' <= c <= 'z' {
        (c as u32 - 32) as char
    } else {
        c
    }
}

/// `s` with ASCII capitals for small ASCII letters.
pub open spec fn uppered(s: Seq<char>) -> Seq<char> {
    s.map_values(|c: char| upper_char(c))
}

/// `s` with ASCII capitals for small ASCII letters.
pub fn to_upper(s: &str) -> (t: String)
    ensures
        t@ == uppered(s@),
{
    let cs = chars_of(s);
    let mut t = String::new();
    for i in 0..cs.len()
        invariant
            cs@ == s@,
            t@ == uppered(s@.take(i as int)),
    {
        let c = cs[i];
        assert(uppered(s@.take(i as int + 1)) =~= uppered(s@.take(i as int)).push(
            upper_char(s@[i as int]),
        ));
        if 'a' <= c && c <= 'z' {
            t.push((c as u8 - 32) as char);
        } else {
            t.push(c);
        }
    }
    assert(s@.take(s@.len() as int) =~= s@);
    t
}

/// The decimal digit for `d`, a number below ten.
pub open spec fn digit(d: nat) -> char {
    (48 + d) as char
}

/// The last `width` decimal digits of `n`, with leading zeros.
pub open spec fn padded(n: nat, width: nat) -> Seq<char>
    decreases width,
{
    if width == 0 {
        Seq::empty()
    } else {
        padded(n / 10, (width - 1) as nat).push(digit(n % 10))
    }
}

/// `n` in decimal, without leading zeros.
pub open spec fn decimal(n: nat) -> Seq<char>
    decreases n,
{
    if n < 10 {
        seq![digit(n)]
    } else {
        decimal(n / 10).push(digit(n % 10))
    }
}

/// Whether `c` is one of the ten ASCII digits.
pub open spec fn is_digit(c: char) -> bool {
    '0' <= c <= '9'
}

/// A padded number has exactly the requested number of digits.
pub proof fn lemma_padded(n: nat, width: nat)
    ensures
        padded(n, width).len() == width,
        forall|i: int| 0 <= i < width ==> is_digit(#[trigger] padded(n, width)[i]),
    decreases width,
{
    if width > 0 {
        lemma_padded(n / 10, (width - 1) as nat);
        let p = padded(n / 10, (width - 1) as nat);
        assert forall|i: int| 0 <= i < width implies is_digit(#[trigger] padded(n, width)[i]) by {
            if i < width - 1 {
                assert(padded(n, width)[i] == p[i]);
            }
        }
    }
}

/// A decimal number has digits only, and at least one.
pub proof fn lemma_decimal(n: nat)
    ensures
        decimal(n).len() > 0,
        forall|i: int| 0 <= i < decimal(n).len() ==> is_digit(#[trigger] decimal(n)[i]),
    decreases n,
{
    if n >= 10 {
        lemma_decimal(n / 10);
    }
}

fn digit_char(d: u64) -> (c: char)
    requires
        d < 10,
    ensures
        c == digit(d as nat),
{
    (48 + d as u8) as char
}

/// Zero-padded decimal text of the last `width` digits of `n`.
pub fn padded_text(n: u64, width: usize) -> (s: String)
    ensures
        s@ == padded(n as nat, width as nat),
    decreases width,
{
    if width == 0 {
        String::new()
    } else {
        let mut s = padded_text(n / 10, width - 1);
        s.push(digit_char(n % 10));
        s
    }
}

/// Decimal text of `n`.
pub fn decimal_text(n: u64) -> (s: String)
    ensures
        s@ == decimal(n as nat),
    decreases n,
{
    if n < 10 {
        let mut s = String::new();
        s.push(digit_char(n));
        assert(s@ =~= seq![digit(n as nat)]);
        s
    } else {
        let mut s = decimal_text(n / 10);
        s.push(digit_char(n % 10));
        s
    }
}

/// The number that decimal digits stand for.
pub open spec fn number(digits: Seq<char>) -> nat
    decreases digits.len(),
{
    if digits.len() == 0 {
        0
    } else {
        10 * number(digits.drop_last()) + (digits.last() as u32 - '0' as u32) as nat
    }
}

/// How many numbers have at most `width` decimal digits.
pub open spec fn tens(width: nat) -> nat
    decreases width,
{
    if width == 0 {
        1
    } else {
        10 * tens((width - 1) as nat)
    }
}

/// A padded number is written in exactly `width` digits, and they stand for the
/// number.
pub proof fn law_padded_stands_for_its_number(n: nat, width: nat)
    requires
        n < tens(width),
    ensures
        padded(n, width).len() == width,
        forall|i: int| 0 <= i < width ==> '0' <= #[trigger] padded(n, width)[i] <= '9',
        number(padded(n, width)) == n,
    decreases width,
{
    lemma_padded(n, width);
    assert forall|i: int| 0 <= i < width implies '0' <= #[trigger] padded(n, width)[i] <= '9' by {
        assert(is_digit(padded(n, width)[i]));
    }
    if width > 0 {
        law_padded_stands_for_its_number(n / 10, (width - 1) as nat);
        assert(padded(n, width).drop_last() =~= padded(n / 10, (width - 1) as nat));
    }
}

/// Any digits are the padded form of the number that they stand for.
pub proof fn law_digits_are_a_padded_number(digits: Seq<char>)
    requires
        forall|i: int| 0 <= i < digits.len() ==> '0' <= #[trigger] digits[i] <= '9',
    ensures
        number(digits) < tens(digits.len()),
        padded(number(digits), digits.len()) == digits,
    decreases digits.len(),
{
    if digits.len() > 0 {
        let front = digits.drop_last();
        assert forall|i: int| 0 <= i < front.len() implies '0' <= #[trigger] front[i] <= '9' by {
            assert(front[i] == digits[i]);
        }
        law_digits_are_a_padded_number(front);
        let last = digits[digits.len() - 1];
        assert(digits.last() == last);
        assert('0' <= last <= '9');
        let d = (last as u32 - '0' as u32) as nat;
        assert(number(digits) == 10 * number(front) + d);
        assert(number(digits) / 10 == number(front));
        assert(number(digits) % 10 == d);
        assert(digit(d) == last);
        assert(padded(number(digits), digits.len()) =~= front.push(last));
        assert(front.push(last) =~= digits);
    }
}

/// A number in decimal stands for the number, in digits only and without a
/// leading zero.
pub proof fn law_decimal_stands_for_its_number(n: nat)
    ensures
        decimal(n).len() > 0,
        forall|i: int| 0 <= i < decimal(n).len() ==> '0' <= #[trigger] decimal(n)[i] <= '9',
        number(decimal(n)) == n,
        decimal(n).len() > 1 ==> decimal(n)[0] != '0',
    decreases n,
{
    lemma_decimal(n);
    assert forall|i: int| 0 <= i < decimal(n).len() implies '0' <= #[trigger] decimal(n)[i]
        <= '9' by {
        assert(is_digit(decimal(n)[i]));
    }
    if n >= 10 {
        law_decimal_stands_for_its_number(n / 10);
        let front = decimal(n / 10);
        assert(decimal(n).drop_last() =~= front);
        assert(decimal(n)[0] == front[0]);
        if front.len() == 1 {
            assert(front.drop_last() =~= Seq::empty());
            assert(number(front.drop_last()) == 0);
            assert(number(front) == (front[0] as u32 - '0' as u32) as nat);
        }
    } else {
        assert(decimal(n).drop_last() =~= Seq::empty());
        assert(number(decimal(n).drop_last()) == 0);
    }
}

/// White space is what Unicode counts as such: tab to carriage return, the
/// spaces, and the line and paragraph separators.
pub proof fn law_white_space(c: char)
    ensures
        is_whitespace(c) <==> ('\t' <= c <= '\r') || c == ' ' || c == '\u{85}' || c == '\u{a0}' || c
            == '\u{1680}' || ('\u{2000}' <= c <= '\u{200a}') || c == '\u{2028}' || c == '\u{2029}'
            || c == '\u{202f}' || c == '\u{205f}' || c == '\u{3000}',
        Class::Whitespace.has(c) == is_whitespace(c),
        forall|d: char| Class::Only(d).has(c) <==> c == d,
{
}

/// Trimming the end takes away trimmed characters only, and all of them.
pub proof fn law_trim_end_takes_all_at_the_end(s: Seq<char>, class: Class) -> (j: int)
    ensures
        0 <= j <= s.len(),
        trim_end(s, class) == s.take(j),
        forall|k: int| j <= k < s.len() ==> class.has(#[trigger] s[k]),
        j > 0 ==> !class.has(s[j - 1]),
    decreases s.len(),
{
    if s.len() > 0 && class.has(s.last()) {
        let t = s.drop_last();
        let j = law_trim_end_takes_all_at_the_end(t, class);
        assert(t.take(j) =~= s.take(j));
        assert forall|k: int| j <= k < s.len() implies class.has(#[trigger] s[k]) by {
            if k < t.len() {
                assert(t[k] == s[k]);
            }
        }
        if j > 0 {
            assert(t[j - 1] == s[j - 1]);
        }
        j
    } else {
        assert(s.take(s.len() as int) =~= s);
        s.len() as int
    }
}

/// Trimming takes away trimmed characters only, all of them at either end, and
/// keeps everything between.
pub proof fn law_trimming_keeps_the_middle(s: Seq<char>, class: Class) -> (ends: (int, int))
    ensures
        0 <= ends.0 <= ends.1 <= s.len(),
        trim_both(s, class) == s.subrange(ends.0, ends.1),
        forall|k: int| 0 <= k < ends.0 ==> class.has(#[trigger] s[k]),
        forall|k: int| ends.1 <= k < s.len() ==> class.has(#[trigger] s[k]),
        ends.0 < ends.1 ==> !class.has(s[ends.0]) && !class.has(s[ends.1 - 1]),
        class == Class::Whitespace ==> trimmed(s) == trim_both(s, class),
    decreases s.len(),
{
    if s.len() > 0 && class.has(s[0]) {
        let t = s.drop_first();
        let (i, j) = law_trimming_keeps_the_middle(t, class);
        assert(trim_both(s, class) == trim_both(t, class));
        assert(t.subrange(i, j) =~= s.subrange(i + 1, j + 1));
        assert forall|k: int| 0 <= k < i + 1 implies class.has(#[trigger] s[k]) by {
            if k > 0 {
                assert(t[k - 1] == s[k]);
            }
        }
        assert forall|k: int| j + 1 <= k < s.len() implies class.has(#[trigger] s[k]) by {
            assert(t[k - 1] == s[k]);
        }
        if i < j {
            assert(t[i] == s[i + 1]);
            assert(t[j - 1] == s[j]);
        }
        (i + 1, j + 1)
    } else {
        let j = law_trim_end_takes_all_at_the_end(s, class);
        assert(s.take(j) =~= s.subrange(0, j));
        (0, j)
    }
}

/// Replacing and capitals change nothing but the characters that they are for.
pub proof fn law_other_characters_stay(s: Seq<char>, from: char, to: char)
    ensures
        replaced(s, from, to).len() == s.len(),
        forall|i: int|
            0 <= i < s.len() ==> #[trigger] replaced(s, from, to)[i] == (if s[i] == from {
                to
            } else {
                s[i]
            }),
        uppered(s).len() == s.len(),
        forall|i: int|
            0 <= i < s.len() ==> (#[trigger] uppered(s)[i]) as u32 == (if 'a' <= s[i] <= 'z' {
                s[i] as u32 - ('a' as u32 - 'A' as u32)
            } else {
                s[i] as u32 as int
            }),
{
}

/// A text that may be missing is seen as it is.
pub proof fn law_optional_texts_are_seen_whole(t: Option<String>, s: Option<&str>)
    ensures
        opt_text(t) is Some <==> t is Some,
        t matches Some(x) ==> opt_text(t) == Some(x@),
        opt_str(s) is Some <==> s is Some,
        s matches Some(x) ==> opt_str(s) == Some(x@),
{
}

/// A part is found wherever it stands, and only where it stands.
pub proof fn law_parts(before: Seq<char>, part: Seq<char>, after: Seq<char>, s: Seq<char>)
    ensures
        has_part(before + part + after, part),
        has_part(s, part) ==> exists|i: int|
            0 <= i <= s.len() - part.len() && s == s.take(i) + part + #[trigger] s.skip(
                i + part.len(),
            ),
{
    let t = before + part + after;
    let n = before.len() as int;
    assert(t.subrange(n, n + part.len()) =~= part);
    if has_part(s, part) {
        let i = choose|i: int|
            0 <= i <= s.len() - part.len() && #[trigger] s.subrange(i, i + part.len()) == part;
        assert(s =~= s.take(i) + s.subrange(i, i + part.len()) + s.skip(i + part.len()));
    }
}

} // verus!
