//! Small pieces of text handling: decimal numbers and trimming.

use vstd::prelude::*;

verus! {

/// The text of an optional string.
pub open spec fn optional_text(s: Option<String>) -> Option<Seq<char>> {
    match s {
        Some(s) => Some(s@),
        None => None,
    }
}

/// The decimal digit `d` as a character.
pub open spec fn digit_char(d: nat) -> char {
    (48 + d) as char
}

/// Whether `c` is one of the characters `0` to `9`.
pub open spec fn is_digit(c: char) -> bool {
    48 <= c as int <= 57
}

/// Whether `c` is one of the characters `0` to `9` and `a` to `f`.
pub open spec fn is_lower_hex(c: char) -> bool {
    is_digit(c) || 97 <= c as int <= 102
}

/// `n` in decimal, without leading zeros.
pub open spec fn decimal(n: nat) -> Seq<char>
    decreases n,
{
    if n < 10 {
        seq![digit_char(n)]
    } else {
        decimal(n / 10).push(digit_char(n % 10))
    }
}

/// `n` zeros.
pub open spec fn zeros(n: nat) -> Seq<char> {
    Seq::new(n, |i: int| '0')
}

/// `n` in decimal, with leading zeros up to `width` characters.
pub open spec fn zero_padded(n: nat, width: nat) -> Seq<char> {
    if decimal(n).len() < width {
        zeros((width - decimal(n).len()) as nat) + decimal(n)
    } else {
        decimal(n)
    }
}

/// `n` in decimal, with leading zeros up to `width` characters. The sign of a
/// negative number stands before the zeros and counts as one of them.
pub open spec fn zero_padded_signed(n: int, width: nat) -> Seq<char> {
    if n < 0 {
        seq!['-'] + zero_padded((-n) as nat, if width > 0 { (width - 1) as nat } else { 0 })
    } else {
        zero_padded(n as nat, width)
    }
}

/// The number that a run of decimal digits denotes.
pub open spec fn digits_value(s: Seq<char>) -> int
    decreases s.len(),
{
    if s.len() == 0 {
        0
    } else {
        10 * digits_value(s.drop_last()) + (s.last() as int - 48)
    }
}

proof fn lemma_decimal(n: nat)
    ensures
        decimal(n).len() > 0,
        forall|i: int| 0 <= i < decimal(n).len() ==> is_digit(#[trigger] decimal(n)[i]),
        digits_value(decimal(n)) == n,
    decreases n,
{
    if n < 10 {
        let s = seq![digit_char(n)];
        assert(s.drop_last() =~= Seq::<char>::empty());
        assert(digits_value(s.drop_last()) == 0);
    } else {
        lemma_decimal(n / 10);
        assert(decimal(n).drop_last() =~= decimal(n / 10));
    }
}

proof fn lemma_leading_zeros(k: nat, s: Seq<char>)
    ensures
        digits_value(zeros(k) + s) == digits_value(s),
    decreases k + s.len(),
{
    let t = zeros(k) + s;
    if s.len() > 0 {
        lemma_leading_zeros(k, s.drop_last());
        assert(t.drop_last() =~= zeros(k) + s.drop_last());
    } else if k > 0 {
        lemma_leading_zeros((k - 1) as nat, s);
        assert(t.drop_last() =~= zeros((k - 1) as nat) + s);
    } else {
        assert(t =~= s);
    }
}

/// A padded number is made of digits alone, fills its width, and denotes the
/// number it was made from.
pub proof fn lemma_zero_padded(n: nat, width: nat)
    ensures
        zero_padded(n, width).len() > 0,
        zero_padded(n, width).len() >= width,
        forall|i: int|
            0 <= i < zero_padded(n, width).len() ==> is_digit(#[trigger] zero_padded(n, width)[i]),
        digits_value(zero_padded(n, width)) == n,
{
    lemma_decimal(n);
    if decimal(n).len() < width {
        lemma_leading_zeros((width - decimal(n).len()) as nat, decimal(n));
    }
}

/// A signed padded number holds digits and at most a leading `-`.
pub proof fn lemma_zero_padded_signed(n: int, width: nat)
    ensures
        zero_padded_signed(n, width).len() > 0,
        forall|i: int|
            0 <= i < zero_padded_signed(n, width).len() ==> is_digit(
                #[trigger] zero_padded_signed(n, width)[i],
            ) || zero_padded_signed(n, width)[i] == '-',
        (zero_padded_signed(n, width)[0] == '-') == (n < 0),
{
    if n < 0 {
        lemma_zero_padded((-n) as nat, if width > 0 { (width - 1) as nat } else { 0 });
    } else {
        lemma_zero_padded(n as nat, width);
    }
}

/// Different numbers have different padded forms.
pub proof fn lemma_zero_padded_signed_injective(a: int, b: int, width: nat)
    requires
        zero_padded_signed(a, width) == zero_padded_signed(b, width),
    ensures
        a == b,
{
    lemma_zero_padded_signed(a, width);
    lemma_zero_padded_signed(b, width);
    let w: nat = if width > 0 {
        (width - 1) as nat
    } else {
        0
    };
    if a < 0 {
        lemma_zero_padded((-a) as nat, w);
        lemma_zero_padded((-b) as nat, w);
        assert(zero_padded_signed(a, width).drop_first() =~= zero_padded((-a) as nat, w));
        assert(zero_padded_signed(b, width).drop_first() =~= zero_padded((-b) as nat, w));
    } else {
        lemma_zero_padded(a as nat, width);
        lemma_zero_padded(b as nat, width);
    }
}

/// Whether `s` writes the number `n` in decimal on at least `width` characters: it
/// is made of digits alone, they denote `n`, and a zero leads only where it is
/// needed to fill the width.
pub open spec fn writes_number(s: Seq<char>, n: int, width: nat) -> bool {
    &&& s.len() > 0
    &&& s.len() >= width
    &&& forall|i: int| 0 <= i < s.len() ==> is_digit(#[trigger] s[i])
    &&& digits_value(s) == n
    &&& s.len() > 1 && s.len() > width ==> s[0] != '0'
}

/// [`writes_number`] for a number that may be negative. A `-` then stands before
/// the digits and takes one character of the width.
pub open spec fn writes_signed_number(s: Seq<char>, n: int, width: nat) -> bool {
    if n < 0 {
        &&& s.len() > 0
        &&& s[0] == '-'
        &&& writes_number(s.skip(1), -n, if width > 0 { (width - 1) as nat } else { 0 })
    } else {
        writes_number(s, n, width)
    }
}

proof fn lemma_no_leading_zero(n: nat)
    ensures
        decimal(n).len() > 1 ==> decimal(n)[0] != '0',
        n > 0 ==> decimal(n)[0] != '0',
    decreases n,
{
    if n >= 10 {
        lemma_no_leading_zero(n / 10);
        lemma_decimal(n / 10);
    }
}

/// A number is written by the digits that denote it, padded with zeros to the width
/// and not beyond.
pub proof fn law_numbers_are_written_in_full(n: nat, width: nat)
    ensures
        writes_number(decimal(n), n as int, 0),
        writes_number(zero_padded(n, width), n as int, width),
{
    lemma_decimal(n);
    lemma_zero_padded(n, width);
    lemma_no_leading_zero(n);
}

/// A negative number is written with its sign before the digits, and the sign
/// counts as padding.
pub proof fn law_signed_numbers_are_written_in_full(n: int, width: nat)
    ensures
        writes_signed_number(zero_padded_signed(n, width), n, width),
{
    if n < 0 {
        let w: nat = if width > 0 {
            (width - 1) as nat
        } else {
            0
        };
        law_numbers_are_written_in_full((-n) as nat, w);
        assert(zero_padded_signed(n, width).skip(1) =~= zero_padded((-n) as nat, w));
    } else {
        law_numbers_are_written_in_full(n as nat, width);
    }
}

proof fn lemma_same_digits(s: Seq<char>, t: Seq<char>)
    requires
        s.len() == t.len(),
        forall|i: int| 0 <= i < s.len() ==> is_digit(#[trigger] s[i]),
        forall|i: int| 0 <= i < t.len() ==> is_digit(#[trigger] t[i]),
        digits_value(s) == digits_value(t),
    ensures
        s == t,
    decreases s.len(),
{
    if s.len() > 0 {
        assert(is_digit(s.last()));
        assert(is_digit(t.last()));
        let a = digits_value(s.drop_last());
        let b = digits_value(t.drop_last());
        let c = s.last() as int - 48;
        let d = t.last() as int - 48;
        assert(10 * a + c == 10 * b + d);
        assert(a == b && c == d);
        lemma_same_digits(s.drop_last(), t.drop_last());
        assert(s =~= s.drop_last().push(s.last()));
        assert(t =~= t.drop_last().push(t.last()));
        assert(s =~= t);
    } else {
        assert(s =~= t);
    }
}

proof fn lemma_digits_value_grows(s: Seq<char>)
    requires
        s.len() > 0,
        forall|i: int| 0 <= i < s.len() ==> is_digit(#[trigger] s[i]),
    ensures
        0 <= digits_value(s),
        digits_value(s) < vstd::arithmetic::power::pow(10, s.len()),
        s[0] != '0' ==> vstd::arithmetic::power::pow(10, (s.len() - 1) as nat) <= digits_value(s),
    decreases s.len(),
{
    let init = s.drop_last();
    assert(is_digit(s.last()));
    vstd::arithmetic::power::lemma_pow0(10);
    vstd::arithmetic::power::lemma_pow1(10);
    assert(is_digit(s[0]));
    if s.len() > 1 {
        lemma_digits_value_grows(init);
        vstd::arithmetic::power::lemma_pow_adds(10, 1, init.len());
        vstd::arithmetic::power::lemma_pow_adds(10, 1, (init.len() - 1) as nat);
    } else {
        assert(digits_value(init) == 0);
    }
}

/// There is one way only to write a number on a given width.
pub proof fn law_a_number_is_written_one_way(s: Seq<char>, t: Seq<char>, n: int, width: nat)
    requires
        writes_number(s, n, width),
        writes_number(t, n, width),
    ensures
        s == t,
    decreases if s.len() > t.len() { 1int } else { 0 },
{
    if s.len() > t.len() {
        law_a_number_is_written_one_way(t, s, n, width);
    } else if s.len() < t.len() {
        lemma_digits_value_grows(s);
        lemma_digits_value_grows(t);
        vstd::arithmetic::power::lemma_pow_increases(10, s.len(), (t.len() - 1) as nat);
    } else {
        lemma_same_digits(s, t);
    }
}

/// One decimal digit.
fn digit(d: u64) -> (r: &'static str)
    requires
        d < 10,
    ensures
        r@ == seq![digit_char(d as nat)],
{
    proof {
        reveal_strlit("0");
        reveal_strlit("1");
        reveal_strlit("2");
        reveal_strlit("3");
        reveal_strlit("4");
        reveal_strlit("5");
        reveal_strlit("6");
        reveal_strlit("7");
        reveal_strlit("8");
        reveal_strlit("9");
    }
    if d == 0 {
        "0"
    } else if d == 1 {
        "1"
    } else if d == 2 {
        "2"
    } else if d == 3 {
        "3"
    } else if d == 4 {
        "4"
    } else if d == 5 {
        "5"
    } else if d == 6 {
        "6"
    } else if d == 7 {
        "7"
    } else if d == 8 {
        "8"
    } else {
        "9"
    }
}

/// `n` in decimal.
pub fn to_decimal(n: u64) -> (r: String)
    ensures
        r@ == decimal(n as nat),
    decreases n,
{
    if n < 10 {
        let mut r = String::new();
        r.append(digit(n));
        r
    } else {
        let mut r = to_decimal(n / 10);
        r.append(digit(n % 10));
        r
    }
}

/// `n` in decimal, with leading zeros up to `width` characters.
pub fn to_zero_padded(n: u64, width: usize) -> (r: String)
    ensures
        r@ == zero_padded(n as nat, width as nat),
{
    let digits = to_decimal(n);
    let len: usize = digits.as_str().unicode_len();
    let mut r = String::new();
    let mut k: usize = len;
    proof {
        reveal_strlit("0");
    }
    while k < width
        invariant
            "0"@ == seq!['0'],
            len == decimal(n as nat).len(),
            len <= k,
            k <= width || k == len,
            r@ == zeros((k - len) as nat),
        decreases width - k,
    {
        r.append("0");
        k = k + 1;
        assert(r@ =~= zeros((k - len) as nat));
    }
    assert(zeros(0) + digits@ =~= digits@);
    r.append(digits.as_str());
    r
}

/// `n` in decimal, with leading zeros up to `width` characters, the sign
/// included.
pub fn to_zero_padded_signed(n: i32, width: usize) -> (r: String)
    ensures
        r@ == zero_padded_signed(n as int, width as nat),
{
    if n < 0 {
        let magnitude: u64 = (-(n as i64)) as u64;
        let rest: usize = if width > 0 {
            width - 1
        } else {
            0
        };
        let mut r = String::new();
        proof {
            reveal_strlit("-");
        }
        r.append("-");
        let digits = to_zero_padded(magnitude, rest);
        r.append(digits.as_str());
        assert(r@ =~= zero_padded_signed(n as int, width as nat));
        r
    } else {
        to_zero_padded(n as u64, width)
    }
}

/// A set of characters that a text is trimmed by.
#[derive(Clone, Copy)]
pub enum TrimSet {
    /// The path separator `/`.
    Slash,
    /// The characters with the Unicode property `White_Space`.
    WhiteSpace,
}

/// Whether `c` has the Unicode property `White_Space`.
pub open spec fn is_white_space(c: char) -> bool {
    let v = c as int;
    ||| 0x9 <= v <= 0xd
    ||| v == 0x20
    ||| v == 0x85
    ||| v == 0xa0
    ||| v == 0x1680
    ||| 0x2000 <= v <= 0x200a
    ||| v == 0x2028
    ||| v == 0x2029
    ||| v == 0x202f
    ||| v == 0x205f
    ||| v == 0x3000
}

impl TrimSet {
    /// Whether `c` belongs to the set.
    pub open spec fn has(self, c: char) -> bool {
        match self {
            TrimSet::Slash => c == '/',
            TrimSet::WhiteSpace => is_white_space(c),
        }
    }

    /// Whether `c` belongs to the set.
    pub fn contains(self, c: char) -> (r: bool)
        ensures
            r == self.has(c),
    {
        match self {
            TrimSet::Slash => c == '/',
            TrimSet::WhiteSpace => {
                let v: u32 = c as u32;
                0x9 <= v && v <= 0xd || v == 0x20 || v == 0x85 || v == 0xa0 || v == 0x1680 || 0x2000
                    <= v && v <= 0x200a || v == 0x2028 || v == 0x2029 || v == 0x202f || v == 0x205f
                    || v == 0x3000
            },
        }
    }
}

/// `s` without the leading characters that belong to `set`.
pub open spec fn trimmed_start(s: Seq<char>, set: TrimSet) -> Seq<char>
    decreases s.len(),
{
    if s.len() > 0 && set.has(s.first()) {
        trimmed_start(s.drop_first(), set)
    } else {
        s
    }
}

/// `s` without the trailing characters that belong to `set`.
pub open spec fn trimmed_end(s: Seq<char>, set: TrimSet) -> Seq<char>
    decreases s.len(),
{
    if s.len() > 0 && set.has(s.last()) {
        trimmed_end(s.drop_last(), set)
    } else {
        s
    }
}

/// `s` without the leading and trailing characters that belong to `set`.
pub open spec fn trimmed(s: Seq<char>, set: TrimSet) -> Seq<char> {
    trimmed_end(trimmed_start(s, set), set)
}

proof fn lemma_trimmed_end_keeps_first(s: Seq<char>, set: TrimSet)
    requires
        s.len() > 0 ==> !set.has(s.first()),
    ensures
        trimmed_end(s, set).len() > 0 ==> !set.has(trimmed_end(s, set).first()),
    decreases s.len(),
{
    if s.len() > 0 && set.has(s.last()) {
        lemma_trimmed_end_keeps_first(s.drop_last(), set);
    }
}

proof fn lemma_trimmed_start_first(s: Seq<char>, set: TrimSet)
    ensures
        trimmed_start(s, set).len() > 0 ==> !set.has(trimmed_start(s, set).first()),
    decreases s.len(),
{
    if s.len() > 0 && set.has(s.first()) {
        lemma_trimmed_start_first(s.drop_first(), set);
    }
}

proof fn lemma_trimmed_end_last(s: Seq<char>, set: TrimSet)
    ensures
        trimmed_end(s, set).len() > 0 ==> !set.has(trimmed_end(s, set).last()),
    decreases s.len(),
{
    if s.len() > 0 && set.has(s.last()) {
        lemma_trimmed_end_last(s.drop_last(), set);
    }
}

/// A trimmed text neither begins nor ends with a character of the set, and
/// trimming it again changes nothing.
pub proof fn lemma_trimmed(s: Seq<char>, set: TrimSet)
    ensures
        trimmed(s, set).len() > 0 ==> !set.has(trimmed(s, set).first()) && !set.has(
            trimmed(s, set).last(),
        ),
        trimmed(trimmed(s, set), set) == trimmed(s, set),
{
    lemma_trimmed_start_first(s, set);
    lemma_trimmed_end_keeps_first(trimmed_start(s, set), set);
    lemma_trimmed_end_last(trimmed_start(s, set), set);
}

proof fn lemma_trimmed_start_padding(pad: Seq<char>, s: Seq<char>, set: TrimSet)
    requires
        forall|i: int| 0 <= i < pad.len() ==> set.has(#[trigger] pad[i]),
    ensures
        trimmed_start(pad + s, set) == trimmed_start(s, set),
    decreases pad.len(),
{
    if pad.len() > 0 {
        lemma_trimmed_start_padding(pad.drop_first(), s, set);
        assert((pad + s).drop_first() =~= pad.drop_first() + s);
    } else {
        assert(pad + s =~= s);
    }
}

proof fn lemma_trimmed_end_padding(s: Seq<char>, pad: Seq<char>, set: TrimSet)
    requires
        forall|i: int| 0 <= i < pad.len() ==> set.has(#[trigger] pad[i]),
    ensures
        trimmed_end(s + pad, set) == trimmed_end(s, set),
    decreases pad.len(),
{
    if pad.len() > 0 {
        lemma_trimmed_end_padding(s, pad.drop_last(), set);
        assert((s + pad).drop_last() =~= s + pad.drop_last());
    } else {
        assert(s + pad =~= s);
    }
}

proof fn lemma_trimmed_start_of_padded(s: Seq<char>, pad: Seq<char>, set: TrimSet)
    requires
        forall|i: int| 0 <= i < pad.len() ==> set.has(#[trigger] pad[i]),
    ensures
        trimmed_end(trimmed_start(s + pad, set), set) == trimmed_end(trimmed_start(s, set), set),
    decreases s.len(),
{
    if s.len() == 0 {
        assert(s + pad =~= pad + s);
        lemma_trimmed_start_padding(pad, s, set);
    } else if set.has(s.first()) {
        assert((s + pad).drop_first() =~= s.drop_first() + pad);
        lemma_trimmed_start_of_padded(s.drop_first(), pad, set);
    } else {
        lemma_trimmed_end_padding(s, pad, set);
    }
}

/// Characters of the set around a text do not change what trimming leaves.
pub proof fn lemma_trimmed_padding(before: Seq<char>, s: Seq<char>, after: Seq<char>, set: TrimSet)
    requires
        forall|i: int| 0 <= i < before.len() ==> set.has(#[trigger] before[i]),
        forall|i: int| 0 <= i < after.len() ==> set.has(#[trigger] after[i]),
    ensures
        trimmed(before + s + after, set) == trimmed(s, set),
{
    assert(before + s + after =~= before + (s + after));
    lemma_trimmed_start_padding(before, s + after, set);
    lemma_trimmed_start_of_padded(s, after, set);
}

proof fn lemma_trimmed_start_cut(s: Seq<char>, set: TrimSet) -> (a: int)
    ensures
        0 <= a <= s.len(),
        trimmed_start(s, set) == s.skip(a),
        forall|i: int| 0 <= i < a ==> set.has(#[trigger] s[i]),
        a < s.len() ==> !set.has(s[a]),
    decreases s.len(),
{
    if s.len() > 0 && set.has(s.first()) {
        let rest = s.drop_first();
        let a = lemma_trimmed_start_cut(rest, set);
        assert(rest.skip(a) =~= s.skip(a + 1));
        assert forall|i: int| 0 <= i < a + 1 implies set.has(#[trigger] s[i]) by {
            if i > 0 {
                assert(set.has(rest[i - 1]));
            }
        }
        a + 1
    } else {
        assert(s.skip(0) =~= s);
        0
    }
}

proof fn lemma_trimmed_end_cut(s: Seq<char>, set: TrimSet) -> (b: int)
    ensures
        0 <= b <= s.len(),
        trimmed_end(s, set) == s.take(b),
        forall|i: int| b <= i < s.len() ==> set.has(#[trigger] s[i]),
        b > 0 ==> !set.has(s[b - 1]),
    decreases s.len(),
{
    if s.len() > 0 && set.has(s.last()) {
        let init = s.drop_last();
        let b = lemma_trimmed_end_cut(init, set);
        assert(init.take(b) =~= s.take(b));
        assert forall|i: int| b <= i < s.len() implies set.has(#[trigger] s[i]) by {
            if i < s.len() - 1 {
                assert(set.has(init[i]));
            }
        }
        b
    } else {
        assert(s.take(s.len() as int) =~= s);
        s.len() as int
    }
}

/// Trimming takes off the two ends as far as they are made of characters of the
/// set, and nothing else: what is left is the piece from the first character
/// outside the set to the last one, unchanged.
pub proof fn law_trimming_takes_off_the_ends_only(s: Seq<char>, set: TrimSet) -> (cut: (int, int))
    ensures
        0 <= cut.0 <= cut.1 <= s.len(),
        trimmed(s, set) == s.subrange(cut.0, cut.1),
        forall|i: int| 0 <= i < cut.0 ==> set.has(#[trigger] s[i]),
        forall|i: int| cut.1 <= i < s.len() ==> set.has(#[trigger] s[i]),
        cut.0 < cut.1 ==> !set.has(s[cut.0]) && !set.has(s[cut.1 - 1]),
{
    let a = lemma_trimmed_start_cut(s, set);
    let rest = s.skip(a);
    let b = lemma_trimmed_end_cut(rest, set);
    assert(rest.take(b) =~= s.subrange(a, a + b));
    assert forall|i: int| a + b <= i < s.len() implies set.has(#[trigger] s[i]) by {
        assert(set.has(rest[i - a]));
    }
    (a, a + b)
}

/// What a text is trimmed by: the slash alone, or the characters that Unicode calls
/// white space. These are the tab and the four line breaks after it, the space, the
/// next line, the no-break space, the Ogham space mark, the spaces from en quad to
/// hair space, the line and the paragraph separator, the narrow no-break space, the
/// medium mathematical space and the ideographic space.
pub proof fn law_what_is_trimmed(c: char)
    ensures
        TrimSet::Slash.has(c) <==> c == '/',
        TrimSet::WhiteSpace.has(c) <==> seq![
            '\t',
            '\n',
            '\u{b}',
            '\u{c}',
            '\r',
            ' ',
            '\u{85}',
            '\u{a0}',
            '\u{1680}',
            '\u{2000}',
            '\u{2001}',
            '\u{2002}',
            '\u{2003}',
            '\u{2004}',
            '\u{2005}',
            '\u{2006}',
            '\u{2007}',
            '\u{2008}',
            '\u{2009}',
            '\u{200a}',
            '\u{2028}',
            '\u{2029}',
            '\u{202f}',
            '\u{205f}',
            '\u{3000}',
        ].contains(c),
{
    let all = seq![
        '\t', '\n', '\u{b}', '\u{c}', '\r', ' ', '\u{85}', '\u{a0}', '\u{1680}', '\u{2000}',
        '\u{2001}', '\u{2002}', '\u{2003}', '\u{2004}', '\u{2005}', '\u{2006}', '\u{2007}',
        '\u{2008}', '\u{2009}', '\u{200a}', '\u{2028}', '\u{2029}', '\u{202f}', '\u{205f}',
        '\u{3000}',
    ];
    let v = c as int;
    if is_white_space(c) {
        let i = if v <= 0xd {
            v - 0x9
        } else if v == 0x20 {
            5
        } else if v == 0x85 {
            6
        } else if v == 0xa0 {
            7
        } else if v == 0x1680 {
            8
        } else if v <= 0x200a {
            9 + v - 0x2000
        } else if v <= 0x2029 {
            20 + v - 0x2028
        } else if v == 0x202f {
            22
        } else if v == 0x205f {
            23
        } else {
            24
        };
        assert(all[i] == c);
    }
}

/// `s` without the leading and trailing characters that belong to `set`.
pub fn trim<'a>(s: &'a str, set: TrimSet) -> (r: &'a str)
    ensures
        r@ == trimmed(s@, set),
{
    let len: usize = s.unicode_len();
    let mut start: usize = 0;
    assert(s@.skip(0) =~= s@);
    while start < len && set.contains(s.get_char(start))
        invariant
            start <= len == s@.len(),
            trimmed_start(s@, set) == trimmed_start(s@.skip(start as int), set),
        decreases len - start,
    {
        assert(s@.skip(start as int).drop_first() =~= s@.skip(start + 1));
        start = start + 1;
    }
    assert(trimmed_start(s@, set) == s@.skip(start as int));
    let mut end: usize = len;
    assert(s@.subrange(start as int, len as int) =~= s@.skip(start as int));
    while end > start && set.contains(s.get_char(end - 1))
        invariant
            start <= end <= len == s@.len(),
            trimmed(s@, set) == trimmed_end(s@.subrange(start as int, end as int), set),
        decreases end,
    {
        assert(s@.subrange(start as int, end as int).drop_last() =~= s@.subrange(
            start as int,
            end - 1,
        ));
        end = end - 1;
    }
    s.substring_char(start, end)
}

} // verus!
