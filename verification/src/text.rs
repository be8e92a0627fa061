//! Text on which the rest of the crate agrees: numbers written and read in
//! decimal, lines, words and fields of kernel files, and path joining.
//!
//! A text is modelled by its sequence of characters.

use vstd::prelude::*;
use vstd::string::*;

verus! {

/// The character that stands for the digit `d`.
pub open spec fn digit_char(d: nat) -> char {
    if d == 0 {
        '0'
    } else if d == 1 {
        '1'
    } else if d == 2 {
        '2'
    } else if d == 3 {
        '3'
    } else if d == 4 {
        '4'
    } else if d == 5 {
        '5'
    } else if d == 6 {
        '6'
    } else if d == 7 {
        '7'
    } else if d == 8 {
        '8'
    } else {
        '9'
    }
}

/// `n` in decimal, without leading zeros.
pub open spec fn digits(n: nat) -> Seq<char>
    decreases n,
{
    if n < 10 {
        seq![digit_char(n)]
    } else {
        digits(n / 10).push(digit_char(n % 10))
    }
}

/// `n` in decimal, with a minus sign where it is negative.
pub open spec fn int_text(n: int) -> Seq<char> {
    if n < 0 {
        seq!['-'] + digits((-n) as nat)
    } else {
        digits(n as nat)
    }
}

/// The texts of a sequence of strings.
pub open spec fn texts(v: Seq<String>) -> Seq<Seq<char>> {
    v.map_values(|s: String| s@)
}

/// The texts of a sequence of string slices.
pub open spec fn str_texts(v: Seq<&str>) -> Seq<Seq<char>> {
    v.map_values(|s: &str| s@)
}

/// Whether `c` is a decimal digit.
pub open spec fn is_digit(c: char) -> bool {
    '0' <= c && c <= '9'
}

/// The number that the decimal digits of `s` write.
pub open spec fn value(s: Seq<char>) -> nat
    decreases s.len(),
{
    if s.len() == 0 {
        0
    } else {
        value(s.drop_last()) * 10 + ((s.last() as int - '0' as int) as nat)
    }
}

/// Whether `s` is one digit or more, and nothing else.
pub open spec fn all_digits(s: Seq<char>) -> bool {
    s.len() > 0 && forall|i: int| 0 <= i < s.len() ==> is_digit(#[trigger] s[i])
}

/// The number that `s` writes: digits, after an optional plus sign.
pub open spec fn unsigned_value(s: Seq<char>) -> Option<nat> {
    let t = if s.len() > 0 && s[0] == '+' {
        s.drop_first()
    } else {
        s
    };
    if all_digits(t) {
        Some(value(t))
    } else {
        None
    }
}

/// The number that `s` writes: digits, after an optional sign.
pub open spec fn signed_value(s: Seq<char>) -> Option<int> {
    if s.len() > 0 && s[0] == '-' {
        if all_digits(s.drop_first()) {
            Some(-(value(s.drop_first()) as int))
        } else {
            None
        }
    } else {
        match unsigned_value(s) {
            Some(n) => Some(n as int),
            None => None,
        }
    }
}

/// The unsigned number that `s` writes, where it is at most `max`.
pub open spec fn unsigned_up_to(s: Seq<char>, max: nat) -> Option<nat> {
    match unsigned_value(s) {
        Some(n) if n <= max => Some(n),
        _ => None,
    }
}

/// Where `c` first stands in `s`, or the length of `s` where it does not.
pub open spec fn first_at(s: Seq<char>, c: char) -> nat
    decreases s.len(),
{
    if s.len() == 0 || s[0] == c {
        0
    } else {
        1 + first_at(s.drop_first(), c)
    }
}

/// The parts of `s` between the separators `c`; one more than there are
/// separators.
pub open spec fn split_on(s: Seq<char>, c: char) -> Seq<Seq<char>>
    decreases s.len(),
{
    let i = first_at(s, c);
    if i >= s.len() {
        seq![s]
    } else {
        seq![s.take(i as int)] + split_on(s.skip(i as int + 1), c)
    }
}

/// `s` without one carriage return at its end.
pub open spec fn without_cr(s: Seq<char>) -> Seq<char> {
    if s.len() > 0 && s.last() == '\r' {
        s.drop_last()
    } else {
        s
    }
}

/// The lines of `s`. A line ends at a line feed, or at a carriage return and
/// a line feed; the last one may end with the text.
pub open spec fn lines(s: Seq<char>) -> Seq<Seq<char>>
    decreases s.len(),
{
    let i = first_at(s, '\n');
    if s.len() == 0 {
        Seq::empty()
    } else if i >= s.len() {
        seq![s]
    } else {
        seq![without_cr(s.take(i as int))] + lines(s.skip(i as int + 1))
    }
}

/// Whether Unicode gives `c` the property White_Space.
pub open spec fn white_space(c: char) -> bool {
    let u = c as u32;
    ||| 0x9 <= u <= 0xd
    ||| u == 0x20
    ||| u == 0x85
    ||| u == 0xa0
    ||| u == 0x1680
    ||| 0x2000 <= u <= 0x200a
    ||| u == 0x2028
    ||| u == 0x2029
    ||| u == 0x202f
    ||| u == 0x205f
    ||| u == 0x3000
}

/// `s` without the white space that it starts with.
pub open spec fn trim_start(s: Seq<char>) -> Seq<char>
    decreases s.len(),
{
    if s.len() > 0 && white_space(s[0]) {
        trim_start(s.drop_first())
    } else {
        s
    }
}

/// `s` without the white space that it ends with.
pub open spec fn trim_end(s: Seq<char>) -> Seq<char>
    decreases s.len(),
{
    if s.len() > 0 && white_space(s.last()) {
        trim_end(s.drop_last())
    } else {
        s
    }
}

/// `s` without white space at either end.
pub open spec fn trim(s: Seq<char>) -> Seq<char> {
    trim_end(trim_start(s))
}

/// How many characters `s` starts with that are not white space.
pub open spec fn word_len(s: Seq<char>) -> nat
    decreases s.len(),
{
    if s.len() == 0 || white_space(s[0]) {
        0
    } else {
        1 + word_len(s.drop_first())
    }
}

/// The runs of characters in `s` that white space sets apart.
pub open spec fn words(s: Seq<char>) -> Seq<Seq<char>>
    decreases s.len(),
{
    if s.len() == 0 {
        Seq::empty()
    } else if white_space(s[0]) {
        words(s.drop_first())
    } else {
        proof {
            lemma_word_len(s);
        }
        seq![s.take(word_len(s) as int)] + words(s.skip(word_len(s) as int))
    }
}

/// The path `name` below the directory `base`: an absolute `name` stands
/// for itself, another one follows `base` and a single slash.
pub open spec fn joined(base: Seq<char>, name: Seq<char>) -> Seq<char> {
    if name.len() > 0 && name[0] == '/' {
        name
    } else if base.len() == 0 || base.last() == '/' {
        base + name
    } else {
        base + seq!['/'] + name
    }
}

proof fn lemma_first_at(s: Seq<char>, c: char)
    ensures
        first_at(s, c) <= s.len(),
        first_at(s, c) < s.len() ==> s[first_at(s, c) as int] == c,
        forall|i: int| 0 <= i < first_at(s, c) ==> s[i] != c,
    decreases s.len(),
{
    if s.len() > 0 && s[0] != c {
        lemma_first_at(s.drop_first(), c);
        assert forall|i: int| 0 <= i < first_at(s, c) implies s[i] != c by {
            if i > 0 {
                assert(s[i] == s.drop_first()[i - 1]);
            }
        }
    }
}

/// The place that `lemma_first_at` describes is the only one.
proof fn lemma_first_at_is(s: Seq<char>, c: char, k: int)
    requires
        0 <= k <= s.len(),
        forall|i: int| 0 <= i < k ==> s[i] != c,
        k < s.len() ==> s[k] == c,
    ensures
        first_at(s, c) == k,
{
    lemma_first_at(s, c);
    let f = first_at(s, c) as int;
    if f < k {
        assert(s[f] != c);
    }
    if k < f {
        assert(s[k] != c);
    }
}

/// A word ends at the first white space.
pub proof fn lemma_word_len(s: Seq<char>)
    ensures
        word_len(s) <= s.len(),
        s.len() > 0 && !white_space(s[0]) ==> word_len(s) > 0,
        word_len(s) < s.len() ==> white_space(s[word_len(s) as int]),
        forall|i: int| 0 <= i < word_len(s) ==> !white_space(s[i]),
    decreases s.len(),
{
    if s.len() > 0 && !white_space(s[0]) {
        lemma_word_len(s.drop_first());
        assert forall|i: int| 0 <= i < word_len(s) implies !white_space(s[i]) by {
            if i > 0 {
                assert(s[i] == s.drop_first()[i - 1]);
            }
        }
    }
}

/// The place that `lemma_word_len` describes is the only one.
proof fn lemma_word_len_is(s: Seq<char>, k: int)
    requires
        0 <= k <= s.len(),
        forall|i: int| 0 <= i < k ==> !white_space(s[i]),
        k < s.len() ==> white_space(s[k]),
    ensures
        word_len(s) == k,
{
    lemma_word_len(s);
    let f = word_len(s) as int;
    if f < k {
        assert(!white_space(s[f]));
    }
    if k < f {
        assert(!white_space(s[k]));
    }
}

/// The characters of `s`.
pub fn chars_of(s: &str) -> (r: Vec<char>)
    ensures
        r@ == s@,
{
    let mut v: Vec<char> = Vec::new();
    for c in it: s.chars()
        invariant
            it.seq() == s@,
            v@ == s@.take(it.index()),
    {
        v.push(c);
    }
    v
}

/// Whether two texts are the same.
pub fn same(a: &str, b: &str) -> (r: bool)
    ensures
        r == (a@ == b@),
{
    a.to_owned() == b.to_owned()
}

fn digit_text(d: u8) -> (r: &'static str)
    requires
        d < 10,
    ensures
        r@ == seq![digit_char(d as nat)],
{
    proof {
        reveal_strlit("0");
        reveal_strlit("1");
        reveal_strlit("2");
        reveal_strlit("3");
        reveal_strlit("4");
        reveal_strlit("5");
        reveal_strlit("6");
        reveal_strlit("7");
        reveal_strlit("8");
        reveal_strlit("9");
    }
    match d {
        0 => "0",
        1 => "1",
        2 => "2",
        3 => "3",
        4 => "4",
        5 => "5",
        6 => "6",
        7 => "7",
        8 => "8",
        _ => "9",
    }
}

/// A number that was written in decimal reads back as itself.
pub proof fn law_decimal_reads_back(n: nat)
    ensures
        all_digits(digits(n)),
        value(digits(n)) == n,
        unsigned_value(digits(n)) == Some(n),
    decreases n,
{
    reveal_with_fuel(value, 2);
    let s = digits(n);
    if n < 10 {
        assert(s.drop_last() =~= Seq::<char>::empty());
        assert(s.last() == digit_char(n));
    } else {
        law_decimal_reads_back(n / 10);
        assert(s.drop_last() =~= digits(n / 10));
        assert(s.last() == digit_char(n % 10));
        assert forall|i: int| 0 <= i < s.len() implies is_digit(#[trigger] s[i]) by {
            if i < s.len() - 1 {
                assert(s[i] == digits(n / 10)[i]);
            }
        }
    }
    assert(is_digit(s[0]));
}

/// `n` in decimal.
pub fn decimal(n: u128) -> (r: String)
    ensures
        r@ == digits(n as nat),
    decreases n,
{
    if n < 10 {
        digit_text(n as u8).to_owned()
    } else {
        let mut s = decimal(n / 10);
        s.append(digit_text((n % 10) as u8));
        s
    }
}

/// `n` in decimal, with its sign where it is negative.
pub fn signed_decimal(n: i64) -> (r: String)
    ensures
        r@ == int_text(n as int),
{
    if n < 0 {
        let magnitude: u128 = (-(n as i128)) as u128;
        proof {
            reveal_strlit("-");
        }
        let mut s = "-".to_owned();
        let rest = decimal(magnitude);
        s.append(rest.as_str());
        s
    } else {
        decimal(n as u128)
    }
}

/// The number that `s` writes, where `s` is digits alone and the number is
/// at most `max`.
fn digits_up_to(s: &[char], max: u64) -> (r: Option<u64>)
    ensures
        r == (if all_digits(s@) && value(s@) <= max {
            Some(value(s@) as u64)
        } else {
            None
        }),
{
    if s.len() == 0 {
        return None;
    }
    let mut sum: u64 = 0;
    let mut over: bool = false;
    let mut i: usize = 0;
    while i < s.len()
        invariant
            i <= s.len(),
            forall|j: int| 0 <= j < i ==> is_digit(#[trigger] s@[j]),
            over ==> value(s@.take(i as int)) > max,
            !over ==> sum == value(s@.take(i as int)) && sum <= max,
        decreases s.len() - i,
    {
        let c: char = s[i];
        if c < '0' || '9' < c {
            assert(!is_digit(s@[i as int]));
            return None;
        }
        let d: u32 = c as u32 - '0' as u32;
        assert(s@.take(i + 1).drop_last() =~= s@.take(i as int));
        if !over {
            let next: u128 = sum as u128 * 10 + d as u128;
            if next <= max as u128 {
                sum = next as u64;
            } else {
                over = true;
            }
        }
        i = i + 1;
    }
    assert(s@.take(s@.len() as int) =~= s@);
    if over {
        None
    } else {
        Some(sum)
    }
}

/// The unsigned number that `s` writes in decimal, at most `max`: digits,
/// after an optional plus sign.
pub fn parse_unsigned(s: &[char], max: u64) -> (r: Option<u64>)
    ensures
        match unsigned_up_to(s@, max as nat) {
            Some(n) => r == Some(n as u64),
            None => r is None,
        },
{
    if s.len() > 0 && s[0] == '+' {
        let t = vstd::slice::slice_subrange(s, 1, s.len());
        assert(t@ =~= s@.drop_first());
        digits_up_to(t, max)
    } else {
        digits_up_to(s, max)
    }
}

/// The signed number that `s` writes in decimal, where an `i64` holds it:
/// digits, after an optional sign.
pub fn parse_signed(s: &[char]) -> (r: Option<i64>)
    ensures
        match signed_value(s@) {
            Some(n) => if i64::MIN <= n <= i64::MAX {
                r == Some(n as i64)
            } else {
                r is None
            },
            None => r is None,
        },
{
    if s.len() > 0 && s[0] == '-' {
        let t = vstd::slice::slice_subrange(s, 1, s.len());
        assert(t@ =~= s@.drop_first());
        match digits_up_to(t, 0x8000_0000_0000_0000) {
            Some(n) => Some((-(n as i128)) as i64),
            None => None,
        }
    } else {
        match parse_unsigned(s, i64::MAX as u64) {
            Some(n) => Some(n as i64),
            None => None,
        }
    }
}

/// Whether Unicode gives `c` the property White_Space.
fn is_white_space(c: char) -> (r: bool)
    ensures
        r == white_space(c),
{
    let u: u32 = c as u32;
    (0x9 <= u && u <= 0xd) || u == 0x20 || u == 0x85 || u == 0xa0 || u == 0x1680 || (0x2000 <= u
        && u <= 0x200a) || u == 0x2028 || u == 0x2029 || u == 0x202f || u == 0x205f || u == 0x3000
}

/// `s` without white space at either end.
pub fn trimmed(s: &[char]) -> (r: &[char])
    ensures
        r@ == trim(s@),
{
    let mut from: usize = 0;
    assert(s@.skip(0) =~= s@);
    while from < s.len() && is_white_space(s[from])
        invariant
            from <= s.len(),
            trim_start(s@) == trim_start(s@.skip(from as int)),
        decreases s.len() - from,
    {
        assert(s@.skip(from as int).drop_first() =~= s@.skip(from + 1));
        from = from + 1;
    }
    let ghost t = s@.skip(from as int);
    assert(trim_start(s@) == t);
    let mut to: usize = s.len();
    while from < to && is_white_space(s[to - 1])
        invariant
            from <= to <= s.len(),
            trim_end(t) == trim_end(s@.subrange(from as int, to as int)),
        decreases to,
    {
        assert(s@.subrange(from as int, to as int).drop_last() =~= s@.subrange(
            from as int,
            to - 1,
        ));
        to = to - 1;
    }
    vstd::slice::slice_subrange(s, from, to)
}

/// Where `c` first stands in `s` at `from` or after, or the length of `s`.
fn find(s: &[char], from: usize, c: char) -> (r: usize)
    requires
        from <= s@.len(),
    ensures
        r == from + first_at(s@.skip(from as int), c),
        r <= s@.len(),
{
    let mut i: usize = from;
    while i < s.len() && s[i] != c
        invariant
            from <= i <= s@.len(),
            forall|j: int| from <= j < i ==> s@[j] != c,
        decreases s.len() - i,
    {
        i = i + 1;
    }
    proof {
        let t = s@.skip(from as int);
        assert forall|j: int| 0 <= j < i - from implies t[j] != c by {
            assert(t[j] == s@[from + j]);
        }
        lemma_first_at_is(t, c, i - from);
    }
    i
}

/// Appending a string to a list appends its text to the texts.
proof fn lemma_texts_push(v: Seq<String>, s: String)
    ensures
        texts(v.push(s)) == texts(v) + seq![s@],
{
    assert(texts(v.push(s)) =~= texts(v) + seq![s@]);
}

/// The parts of `s` between the separators `c`.
pub fn split(s: &str, c: char) -> (r: Vec<String>)
    ensures
        texts(r@) == split_on(s@, c),
{
    let chars = chars_of(s);
    let mut parts: Vec<String> = Vec::new();
    let mut from: usize = 0;
    assert(s@.skip(0) =~= s@);
    assert(texts(parts@) =~= Seq::<Seq<char>>::empty());
    loop
        invariant_except_break
            split_on(s@, c) == texts(parts@) + split_on(s@.skip(from as int), c),
        invariant
            chars@ == s@,
            from <= chars@.len(),
        ensures
            split_on(s@, c) == texts(parts@),
        decreases chars@.len() - from,
    {
        let to: usize = find(chars.as_slice(), from, c);
        let part = s.substring_char(from, to).to_owned();
        let ghost rest = s@.skip(from as int);
        let ghost before = parts@;
        parts.push(part);
        proof {
            lemma_texts_push(before, part);
            assert(part@ =~= rest.take(to - from));
        }
        if to == chars.len() {
            assert(part@ =~= rest);
            break;
        }
        assert(rest.skip(to - from + 1) =~= s@.skip(to + 1));
        assert(split_on(s@, c) =~= texts(parts@) + split_on(s@.skip(to + 1), c));
        from = to + 1;
    }
    parts
}

/// The lines of `s`.
pub fn line_list(s: &str) -> (r: Vec<String>)
    ensures
        texts(r@) == lines(s@),
{
    let chars = chars_of(s);
    let mut parts: Vec<String> = Vec::new();
    let mut from: usize = 0;
    assert(s@.skip(0) =~= s@);
    assert(texts(parts@) =~= Seq::<Seq<char>>::empty());
    while from < chars.len()
        invariant
            chars@ == s@,
            from <= chars@.len(),
            lines(s@) == texts(parts@) + lines(s@.skip(from as int)),
        decreases chars@.len() - from,
    {
        let to: usize = find(chars.as_slice(), from, '\n');
        let ghost rest = s@.skip(from as int);
        let ghost before = parts@;
        if to == chars.len() {
            let part = s.substring_char(from, to).to_owned();
            parts.push(part);
            proof {
                lemma_texts_push(before, part);
                assert(part@ =~= rest);
                assert(s@.skip(to as int) =~= Seq::<char>::empty());
                assert(lines(s@) =~= texts(parts@) + lines(s@.skip(to as int)));
            }
            from = to;
        } else {
            let end: usize = if from < to && chars[to - 1] == '\r' {
                to - 1
            } else {
                to
            };
            let part = s.substring_char(from, end).to_owned();
            parts.push(part);
            proof {
                lemma_texts_push(before, part);
                let line = rest.take(to - from);
                if from < to {
                    assert(line.last() == s@[to - 1]);
                }
                assert(part@ =~= without_cr(line));
                assert(rest.skip(to - from + 1) =~= s@.skip(to + 1));
                assert(lines(s@) =~= texts(parts@) + lines(s@.skip(to + 1)));
            }
            from = to + 1;
        }
    }
    assert(s@.skip(from as int) =~= Seq::<char>::empty());
    assert(lines(s@) =~= texts(parts@));
    parts
}

/// The words of `s`.
pub fn word_list(s: &str) -> (r: Vec<String>)
    ensures
        texts(r@) == words(s@),
{
    let chars = chars_of(s);
    let mut parts: Vec<String> = Vec::new();
    let mut from: usize = 0;
    assert(s@.skip(0) =~= s@);
    assert(texts(parts@) =~= Seq::<Seq<char>>::empty());
    while from < chars.len()
        invariant
            chars@ == s@,
            from <= chars@.len(),
            words(s@) == texts(parts@) + words(s@.skip(from as int)),
        decreases chars@.len() - from,
    {
        let ghost rest = s@.skip(from as int);
        if is_white_space(chars[from]) {
            assert(rest.drop_first() =~= s@.skip(from + 1));
            from = from + 1;
        } else {
            let mut to: usize = from;
            while to < chars.len() && !is_white_space(chars[to])
                invariant
                    from <= to <= chars@.len(),
                    forall|j: int| from <= j < to ==> !white_space(chars@[j]),
                decreases chars@.len() - to,
            {
                to = to + 1;
            }
            let part = s.substring_char(from, to).to_owned();
            let ghost before = parts@;
            parts.push(part);
            proof {
                assert forall|j: int| 0 <= j < to - from implies !white_space(rest[j]) by {
                    assert(rest[j] == chars@[from + j]);
                }
                lemma_word_len_is(rest, to - from);
                lemma_texts_push(before, part);
                assert(part@ =~= rest.take(to - from));
                assert(rest.skip(to - from) =~= s@.skip(to as int));
                lemma_word_len(rest);
                assert(words(s@) =~= texts(parts@) + words(s@.skip(to as int)));
            }
            from = to;
        }
    }
    assert(s@.skip(from as int) =~= Seq::<char>::empty());
    assert(words(s@) =~= texts(parts@));
    parts
}

/// Whether `s` starts with `prefix`.
pub open spec fn starts_with(s: Seq<char>, prefix: Seq<char>) -> bool {
    prefix.len() <= s.len() && s.take(prefix.len() as int) == prefix
}

/// What follows `prefix` in `s`, or `None` where `s` does not start with it.
pub fn after_prefix(s: &str, prefix: &str) -> (r: Option<String>)
    ensures
        r is Some == starts_with(s@, prefix@),
        r matches Some(rest) ==> rest@ == s@.skip(prefix@.len() as int),
{
    let n: usize = s.unicode_len();
    let k: usize = prefix.unicode_len();
    if k <= n && same(s.substring_char(0, k), prefix) {
        assert(s@.subrange(0, k as int) =~= s@.take(k as int));
        assert(s@.subrange(k as int, n as int) =~= s@.skip(k as int));
        Some(s.substring_char(k, n).to_owned())
    } else {
        assert(k <= n ==> s@.subrange(0, k as int) =~= s@.take(k as int));
        None
    }
}

/// The path `name` below the directory `base`.
pub fn join(base: &str, name: &str) -> (r: String)
    ensures
        r@ == joined(base@, name@),
{
    let b = chars_of(base);
    let n = chars_of(name);
    if n.len() > 0 && n[0] == '/' {
        return name.to_owned();
    }
    let mut path = base.to_owned();
    if b.len() > 0 && b[b.len() - 1] != '/' {
        proof {
            reveal_strlit("/");
            assert("/"@ =~= seq!['/']);
        }
        path.append("/");
    }
    path.append(name);
    path
}

/// `parts` with the separator `c` between them.
pub open spec fn glued(parts: Seq<Seq<char>>, c: char) -> Seq<char>
    decreases parts.len(),
{
    if parts.len() == 0 {
        Seq::empty()
    } else if parts.len() == 1 {
        parts[0]
    } else {
        parts[0] + seq![c] + glued(parts.drop_first(), c)
    }
}

/// Parts that hold no separator come apart as they were put together.
pub proof fn law_split_reads_back(parts: Seq<Seq<char>>, c: char)
    requires
        parts.len() > 0,
        forall|i: int| 0 <= i < parts.len() ==> !(#[trigger] parts[i]).contains(c),
    ensures
        split_on(glued(parts, c), c) == parts,
    decreases parts.len(),
{
    let s = glued(parts, c);
    let p = parts[0];
    assert forall|i: int| 0 <= i < p.len() implies s[i] != c by {
        assert(p[i] == s[i]);
        assert(p.contains(p[i]));
    }
    lemma_first_at_is(s, c, p.len() as int);
    if parts.len() == 1 {
        assert(seq![s] =~= parts);
    } else {
        let rest = parts.drop_first();
        assert forall|i: int| 0 <= i < rest.len() implies !(#[trigger] rest[i]).contains(c) by {
            assert(rest[i] == parts[i + 1]);
        }
        law_split_reads_back(rest, c);
        assert(s.take(p.len() as int) =~= p);
        assert(s.skip(p.len() as int + 1) =~= glued(rest, c));
        assert(seq![p] + rest =~= parts);
    }
}

/// A text is its parts, put together again; and no part holds a separator.
pub proof fn law_parts_make_the_text(s: Seq<char>, c: char)
    ensures
        split_on(s, c).len() > 0,
        glued(split_on(s, c), c) == s,
        forall|i: int| 0 <= i < split_on(s, c).len() ==> !(#[trigger] split_on(s, c)[i]).contains(c),
    decreases s.len(),
{
    lemma_first_at(s, c);
    let k = first_at(s, c) as int;
    let parts = split_on(s, c);
    if k >= s.len() {
        assert(!s.contains(c));
    } else {
        let rest = split_on(s.skip(k + 1), c);
        law_parts_make_the_text(s.skip(k + 1), c);
        assert(parts.drop_first() =~= rest);
        assert(parts[0] == s.take(k));
        assert(!s.take(k).contains(c));
        assert forall|i: int| 0 <= i < parts.len() implies !(#[trigger] parts[i]).contains(c) by {
            if i > 0 {
                assert(parts[i] == rest[i - 1]);
            }
        }
        assert(s.take(k) + seq![c] + s.skip(k + 1) =~= s);
    }
}

/// Lines, each with its end: a line feed, or a carriage return and a line feed
/// where `crlf` says so.
pub open spec fn ended(ls: Seq<Seq<char>>, crlf: bool) -> Seq<char>
    decreases ls.len(),
{
    if ls.len() == 0 {
        Seq::empty()
    } else {
        ls[0] + (if crlf {
            seq!['\r', '\n']
        } else {
            seq!['\n']
        }) + ended(ls.drop_first(), crlf)
    }
}

/// Whether `l` can be a line: it holds no line feed, and no carriage return at
/// its end.
pub open spec fn can_be_line(l: Seq<char>) -> bool {
    !l.contains('\n') && (l.len() > 0 ==> l.last() != '\r')
}

/// Lines come apart as they were put together, whichever way they end, and the
/// last one also where it does not end at all.
pub proof fn law_lines_read_back(ls: Seq<Seq<char>>, crlf: bool, tail: Seq<char>)
    requires
        forall|i: int| 0 <= i < ls.len() ==> can_be_line(#[trigger] ls[i]),
        !tail.contains('\n'),
    ensures
        lines(ended(ls, crlf) + tail) == (if tail.len() == 0 {
            ls
        } else {
            ls.push(tail)
        }),
    decreases ls.len(),
{
    let s = ended(ls, crlf) + tail;
    if ls.len() == 0 {
        assert(s =~= tail);
        assert forall|i: int| 0 <= i < s.len() implies s[i] != '\n' by {
            assert(tail.contains(tail[i]));
        }
        lemma_first_at_is(s, '\n', s.len() as int);
        assert(tail.len() == 0 ==> lines(s) =~= ls);
        assert(tail.len() > 0 ==> seq![tail] =~= ls.push(tail));
    } else {
        let l = ls[0];
        let rest = ls.drop_first();
        let k = (if crlf {
            l.len() + 1
        } else {
            l.len()
        }) as int;
        assert forall|i: int| 0 <= i < rest.len() implies can_be_line(#[trigger] rest[i]) by {
            assert(rest[i] == ls[i + 1]);
        }
        assert forall|i: int| 0 <= i < k implies s[i] != '\n' by {
            if i < l.len() {
                assert(s[i] == l[i]);
                assert(l.contains(l[i]));
            }
        }
        assert(s[k] == '\n');
        lemma_first_at_is(s, '\n', k);
        law_lines_read_back(rest, crlf, tail);
        assert(s.skip(k + 1) =~= ended(rest, crlf) + tail);
        if crlf {
            assert(s.take(k) =~= l.push('\r'));
            assert(l.push('\r').drop_last() =~= l);
        } else {
            assert(s.take(k) =~= l);
        }
        assert(without_cr(s.take(k)) == l);
        if tail.len() == 0 {
            assert(seq![l] + rest =~= ls);
        } else {
            assert(seq![l] + rest.push(tail) =~= ls.push(tail));
        }
    }
}

/// Of the ASCII characters, white space are the space and those from the tab to
/// the carriage return.
pub proof fn law_ascii_white_space(c: char)
    requires
        c as u32 <= 0x7f,
    ensures
        white_space(c) <==> c == ' ' || c == '\t' || c == '\n' || c as u32 == 0xb || c as u32 == 0xc
            || c == '\r',
{
}

/// Whether `s` is white space throughout.
pub open spec fn blank(s: Seq<char>) -> bool {
    forall|i: int| 0 <= i < s.len() ==> white_space(#[trigger] s[i])
}

/// Words with white space behind each: `gaps[i]` follows `ws[i]`.
pub open spec fn spaced(ws: Seq<Seq<char>>, gaps: Seq<Seq<char>>) -> Seq<char>
    decreases ws.len(),
{
    if ws.len() == 0 {
        Seq::empty()
    } else {
        ws[0] + gaps[0] + spaced(ws.drop_first(), gaps.drop_first())
    }
}

proof fn lemma_words_skip(gap: Seq<char>, s: Seq<char>)
    requires
        blank(gap),
    ensures
        words(gap + s) == words(s),
    decreases gap.len(),
{
    if gap.len() == 0 {
        assert(gap + s =~= s);
    } else {
        assert((gap + s)[0] == gap[0]);
        assert((gap + s).drop_first() =~= gap.drop_first() + s);
        assert forall|i: int| 0 <= i < gap.drop_first().len() implies white_space(
            #[trigger] gap.drop_first()[i],
        ) by {
            assert(gap.drop_first()[i] == gap[i + 1]);
        }
        lemma_words_skip(gap.drop_first(), s);
    }
}

/// Words come apart as they were put together, whatever white space stands
/// between them, and in front of the first and behind the last.
pub proof fn law_words_read_back(front: Seq<char>, ws: Seq<Seq<char>>, gaps: Seq<Seq<char>>)
    requires
        blank(front),
        gaps.len() == ws.len(),
        forall|i: int|
            0 <= i < ws.len() ==> (#[trigger] ws[i]).len() > 0 && forall|j: int|
                0 <= j < ws[i].len() ==> !white_space(#[trigger] ws[i][j]),
        forall|i: int|
            0 <= i < gaps.len() ==> blank(#[trigger] gaps[i]) && (i < gaps.len() - 1
                ==> gaps[i].len() > 0),
    ensures
        words(front + spaced(ws, gaps)) == ws,
    decreases ws.len(),
{
    lemma_words_skip(front, spaced(ws, gaps));
    let s = spaced(ws, gaps);
    if ws.len() == 0 {
        assert(words(s) =~= ws);
    } else {
        let w = ws[0];
        let g = gaps[0];
        let rest = ws.drop_first();
        let more = gaps.drop_first();
        assert forall|i: int| 0 <= i < rest.len() implies (#[trigger] rest[i]).len() > 0
            && forall|j: int| 0 <= j < rest[i].len() ==> !white_space(#[trigger] rest[i][j]) by {
            assert(rest[i] == ws[i + 1]);
        }
        assert forall|i: int| 0 <= i < more.len() implies blank(#[trigger] more[i]) && (i
            < more.len() - 1 ==> more[i].len() > 0) by {
            assert(more[i] == gaps[i + 1]);
        }
        law_words_read_back(g, rest, more);
        assert forall|i: int| 0 <= i < w.len() implies !white_space(s[i]) by {
            assert(s[i] == w[i]);
        }
        if w.len() < s.len() {
            if g.len() > 0 {
                assert(s[w.len() as int] == g[0]);
            } else {
                assert(rest.len() == 0);
                assert(spaced(rest, more) =~= Seq::empty());
            }
        }
        lemma_word_len_is(s, w.len() as int);
        assert(s[0] == w[0]);
        assert(s.take(w.len() as int) =~= w);
        assert(s.skip(w.len() as int) =~= g + spaced(rest, more));
        assert(seq![w] + rest =~= ws);
    }
}

proof fn lemma_trim_start(a: Seq<char>, m: Seq<char>)
    requires
        blank(a),
        m.len() > 0 ==> !white_space(m[0]),
    ensures
        trim_start(a + m) == m,
    decreases a.len(),
{
    if a.len() == 0 {
        assert(a + m =~= m);
    } else {
        assert((a + m)[0] == a[0]);
        assert((a + m).drop_first() =~= a.drop_first() + m);
        assert forall|i: int| 0 <= i < a.drop_first().len() implies white_space(
            #[trigger] a.drop_first()[i],
        ) by {
            assert(a.drop_first()[i] == a[i + 1]);
        }
        lemma_trim_start(a.drop_first(), m);
    }
}

proof fn lemma_trim_end(m: Seq<char>, b: Seq<char>)
    requires
        blank(b),
        m.len() > 0 ==> !white_space(m.last()),
    ensures
        trim_end(m + b) == m,
    decreases b.len(),
{
    if b.len() == 0 {
        assert(m + b =~= m);
    } else {
        assert((m + b).last() == b.last());
        assert((m + b).drop_last() =~= m + b.drop_last());
        assert forall|i: int| 0 <= i < b.drop_last().len() implies white_space(
            #[trigger] b.drop_last()[i],
        ) by {
            assert(b.drop_last()[i] == b[i]);
        }
        lemma_trim_end(m, b.drop_last());
    }
}

/// What white space surrounds is what is left without it.
pub proof fn law_trim_takes_white_space(a: Seq<char>, m: Seq<char>, b: Seq<char>)
    requires
        blank(a),
        blank(b),
        m.len() > 0,
        !white_space(m[0]),
        !white_space(m.last()),
    ensures
        trim(a + m + b) == m,
{
    assert(a + m + b =~= a + (m + b));
    assert((m + b)[0] == m[0]);
    lemma_trim_start(a, m + b);
    lemma_trim_end(m, b);
}

/// A number with its sign reads back as itself.
pub proof fn law_signed_reads_back(n: int)
    ensures
        signed_value(int_text(n)) == Some(n),
        n >= 0 ==> unsigned_value(seq!['+'] + int_text(n)) == Some(n as nat),
        n >= 0 ==> signed_value(seq!['+'] + int_text(n)) == Some(n),
{
    let m = (if n < 0 {
        -n
    } else {
        n
    }) as nat;
    law_decimal_reads_back(m);
    let d = digits(m);
    assert(is_digit(d[0]));
    if n < 0 {
        assert(int_text(n).drop_first() =~= d);
    } else {
        assert((seq!['+'] + d).drop_first() =~= d);
    }
}

/// What reads as a number is made of digits, after a sign.
pub proof fn law_numbers_are_digits(s: Seq<char>)
    ensures
        unsigned_value(s) is Some ==> s.len() > 0 && (s[0] == '+' || '0' <= s[0] <= '9') && s.last()
            != '+' && forall|i: int| 1 <= i < s.len() ==> '0' <= #[trigger] s[i] <= '9',
        signed_value(s) is Some ==> s.len() > 0 && (s[0] == '+' || s[0] == '-' || '0' <= s[0]
            <= '9') && forall|i: int| 1 <= i < s.len() ==> '0' <= #[trigger] s[i] <= '9',
{
    if s.len() > 0 {
        let t = s.drop_first();
        assert forall|i: int| 1 <= i < s.len() && all_digits(t) implies '0' <= #[trigger] s[i] <= '9' by {
            assert(is_digit(t[i - 1]));
        }
        assert forall|i: int| 0 <= i < s.len() && all_digits(s) implies '0' <= #[trigger] s[i] <= '9' by {
            assert(is_digit(s[i]));
        }
    }
}

/// Below a directory, a relative name follows the directory and one slash; an
/// absolute name stands for itself.
pub proof fn law_joined_paths(base: Seq<char>, name: Seq<char>)
    ensures
        name.len() > 0 && name[0] == '/' ==> joined(base, name) == name,
        name.len() > 0 && name[0] != '/' && base.len() > 0 && base.last() != '/' ==> joined(
            base,
            name,
        ) == base + seq!['/'] + name && joined(base + seq!['/'], name) == joined(base, name),
{
}

/// Decimal is base ten: one digit more at the end, `0` to `9` in the order of their
/// characters, stands for ten times the number and that digit.
pub proof fn law_decimal_is_base_ten(n: nat, d: nat)
    requires
        d < 10,
    ensures
        digits(d) == seq![('0' as nat + d) as char],
        n > 0 ==> digits(10 * n + d) == digits(n).push(('0' as nat + d) as char),
{
    assert((10 * n + d) / 10 == n && (10 * n + d) % 10 == d);
    assert(digit_char(d) == ('0' as nat + d) as char);
}

/// Of the others, white space are the next line and the no-break space, and the spaces
/// and separators that Unicode has at these places.
pub proof fn law_white_space_beyond_ascii(c: char)
    requires
        c as u32 > 0x7f,
    ensures
        white_space(c) <==> seq![
            0x85u32, 0xa0, 0x1680, 0x2000, 0x2001, 0x2002, 0x2003, 0x2004, 0x2005, 0x2006, 0x2007,
            0x2008, 0x2009, 0x200a, 0x2028, 0x2029, 0x202f, 0x205f, 0x3000,
        ].contains(c as u32),
{
    let u = c as u32;
    let all = seq![
        0x85u32, 0xa0, 0x1680, 0x2000, 0x2001, 0x2002, 0x2003, 0x2004, 0x2005, 0x2006, 0x2007,
        0x2008, 0x2009, 0x200a, 0x2028, 0x2029, 0x202f, 0x205f, 0x3000,
    ];
    assert(all[0] == 0x85 && all[1] == 0xa0 && all[2] == 0x1680);
    assert(all[14] == 0x2028 && all[15] == 0x2029 && all[16] == 0x202f && all[17] == 0x205f
        && all[18] == 0x3000);
    if 0x2000 <= u <= 0x200a {
        assert(all[u - 0x2000 + 3] == u);
    }
}

/// A text starts with a prefix where it is that prefix and some rest.
pub proof fn law_prefixes_come_first(s: Seq<char>, prefix: Seq<char>, rest: Seq<char>)
    ensures
        starts_with(prefix + rest, prefix),
        starts_with(s, prefix) ==> s == prefix + s.skip(prefix.len() as int),
        s.len() < prefix.len() ==> !starts_with(s, prefix),
{
    assert((prefix + rest).take(prefix.len() as int) =~= prefix);
    if starts_with(s, prefix) {
        assert(s =~= s.take(prefix.len() as int) + s.skip(prefix.len() as int));
    }
}

} // verus!
