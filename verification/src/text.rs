//! Text: decimal numbers, white space and separated fields, over sequences of
//! characters.
use vstd::prelude::*;
use vstd::string::*;

verus! {

/// The characters of `s`.
pub fn chars_of(s: &str) -> (v: Vec<char>)
    ensures
        v@ == s@,
{
    let mut v: Vec<char> = Vec::new();
    for c in it: s.chars()
        invariant
            v@ == it.seq().take(it.index()),
            it.seq() == s@,
    {
        v.push(c);
        assert(v@ =~= it.seq().take(it.index() + 1));
    }
    assert(v@ =~= s@);
    v
}

/// The text made of these characters.
pub fn text_of(chars: &[char]) -> (s: String)
    ensures
        s@ == chars@,
{
    let mut s = String::new();
    let mut i: usize = 0;
    while i < chars.len()
        invariant
            i <= chars@.len(),
            s@ == chars@.take(i as int),
        decreases chars@.len() - i,
    {
        push_char(&mut s, chars[i]);
        i = i + 1;
        assert(s@ =~= chars@.take(i as int));
    }
    assert(s@ =~= chars@);
    s
}

/// `String::push`: appends one character.
#[verifier::external_body]
fn push_char(s: &mut String, c: char)
    ensures
        final(s)@ == old(s)@.push(c),
{
    s.push(c);
}

/// The decimal digit for `d`.
pub open spec fn digit(d: nat) -> char {
    if d == 0 {
        '0'
    } else if d == 1 {
        '1'
    } else if d == 2 {
        '2'
    } else if d == 3 {
        '3'
    } else if d == 4 {
        '4'
    } else if d == 5 {
        '5'
    } else if d == 6 {
        '6'
    } else if d == 7 {
        '7'
    } else if d == 8 {
        '8'
    } else {
        '9'
    }
}

/// `n` in decimal, without leading zeros.
pub open spec fn decimal(n: nat) -> Seq<char>
    decreases n,
{
    if n < 10 {
        seq![digit(n)]
    } else {
        decimal(n / 10).push(digit(n % 10))
    }
}

/// Appends one decimal digit.
fn push_digit(s: &mut String, d: u8)
    requires
        d < 10,
    ensures
        final(s)@ == old(s)@.push(digit(d as nat)),
{
    let c: char = match d {
        0 => '0',
        1 => '1',
        2 => '2',
        3 => '3',
        4 => '4',
        5 => '5',
        6 => '6',
        7 => '7',
        8 => '8',
        _ => '9',
    };
    push_char(s, c);
}

/// Appends `n` in decimal.
pub fn push_decimal(s: &mut String, n: u128)
    ensures
        final(s)@ == old(s)@ + decimal(n as nat),
    decreases n,
{
    if n >= 10 {
        push_decimal(s, n / 10);
    }
    push_digit(s, (n % 10) as u8);
    assert(s@ =~= old(s)@ + decimal(n as nat));
}

/// `n` thousandths: the whole part, a point and three digits.
pub open spec fn thousandths(n: nat) -> Seq<char> {
    decimal(n / 1000) + seq!['.', digit(n / 100 % 10), digit(n / 10 % 10), digit(n % 10)]
}

/// Appends `n` thousandths.
pub fn push_thousandths(s: &mut String, n: u32)
    ensures
        final(s)@ == old(s)@ + thousandths(n as nat),
{
    push_decimal(s, (n / 1000) as u128);
    push_char(s, '.');
    push_digit(s, (n / 100 % 10) as u8);
    push_digit(s, (n / 10 % 10) as u8);
    push_digit(s, (n % 10) as u8);
    assert(s@ =~= old(s)@ + thousandths(n as nat));
}

/// `n` hundredths: the whole part, a point and two digits.
pub open spec fn hundredths(n: nat) -> Seq<char> {
    decimal(n / 100) + seq!['.', digit(n / 10 % 10), digit(n % 10)]
}

/// Appends `n` hundredths.
pub fn push_hundredths(s: &mut String, n: u32)
    ensures
        final(s)@ == old(s)@ + hundredths(n as nat),
{
    push_decimal(s, (n / 100) as u128);
    push_char(s, '.');
    push_digit(s, (n / 10 % 10) as u8);
    push_digit(s, (n % 10) as u8);
    assert(s@ =~= old(s)@ + hundredths(n as nat));
}

/// Whether `c` is a decimal digit.
pub open spec fn is_digit(c: char) -> bool {
    '0' as u32 <= c as u32 <= '9' as u32
}

/// The value of a decimal digit.
pub open spec fn digit_value(c: char) -> nat {
    (c as u32 - '0' as u32) as nat
}

/// The value of a string of decimal digits.
pub open spec fn digits_value(s: Seq<char>) -> nat
    decreases s.len(),
{
    if s.len() == 0 {
        0
    } else {
        digits_value(s.drop_last()) * 10 + digit_value(s.last())
    }
}

/// `s` without a plus sign in front.
pub open spec fn unsigned(s: Seq<char>) -> Seq<char> {
    if s.len() > 0 && s[0] == '+' {
        s.drop_first()
    } else {
        s
    }
}

/// Whether `s` is made of decimal digits alone.
pub open spec fn all_digits(s: Seq<char>) -> bool {
    forall|i: int| 0 <= i < s.len() ==> is_digit(#[trigger] s[i])
}

/// The number that `s` writes: decimal digits, at least one, after an optional
/// plus sign.
pub open spec fn number_in(s: Seq<char>) -> Option<nat> {
    if unsigned(s).len() > 0 && all_digits(unsigned(s)) {
        Some(digits_value(unsigned(s)))
    } else {
        None
    }
}

/// The number that `s` writes, if there is one and it is at most `max`.
pub open spec fn number_up_to(s: Seq<char>, max: nat) -> Option<nat> {
    match number_in(s) {
        Some(n) => if n <= max {
            Some(n)
        } else {
            None
        },
        None => None,
    }
}

proof fn lemma_digits_value_grows(s: Seq<char>, i: int)
    requires
        0 <= i <= s.len(),
    ensures
        digits_value(s.take(i)) <= digits_value(s),
    decreases s.len() - i,
{
    if i < s.len() {
        lemma_digits_value_grows(s, i + 1);
        assert(s.take(i + 1).drop_last() =~= s.take(i));
    } else {
        assert(s.take(i) =~= s);
    }
}

/// Reads a number of at most `max`.
pub fn parse_number(s: &[char], max: u128) -> (r: Option<u128>)
    ensures
        match r {
            Some(n) => number_up_to(s@, max as nat) == Some(n as nat),
            None => number_up_to(s@, max as nat) is None,
        },
{
    let start: usize = if s.len() > 0 && s[0] == '+' {
        1
    } else {
        0
    };
    let ghost digits = unsigned(s@);
    assert(digits =~= s@.skip(start as int));
    if start >= s.len() {
        return None;
    }
    let mut value: u128 = 0;
    let mut i: usize = start;
    while i < s.len()
        invariant
            start <= i <= s@.len(),
            start < s@.len(),
            digits == s@.skip(start as int),
            digits == unsigned(s@),
            value == digits_value(digits.take(i - start)),
            value <= max,
            forall|j: int| 0 <= j < i - start ==> is_digit(#[trigger] digits[j]),
        decreases s@.len() - i,
    {
        let c: u32 = s[i] as u32;
        assert(digits[i - start] == s@[i as int]);
        if c < 48 || c > 57 {
            assert(!is_digit(digits[i - start]));
            return None;
        }
        let d: u128 = (c - 48) as u128;
        let ghost prefix = digits.take(i - start + 1);
        assert(prefix.drop_last() =~= digits.take(i - start));
        assert(digits_value(prefix) == value * 10 + d);
        proof {
            lemma_digits_value_grows(digits, i - start + 1);
        }
        if d > max || value > (max - d) / 10 {
            assert(value * 10 + d > max);
            return None;
        }
        value = value * 10 + d;
        i = i + 1;
    }
    assert(digits.take(s@.len() - start) =~= digits);
    Some(value)
}

/// A number written in decimal reads back as itself.
pub proof fn lemma_decimal_reads_back(n: nat)
    ensures
        number_in(decimal(n)) == Some(n),
        all_digits(decimal(n)),
        digits_value(decimal(n)) == n,
        decimal(n).len() > 0,
    decreases n,
{
    if n < 10 {
        let s = decimal(n);
        assert(s.drop_last() =~= Seq::<char>::empty());
        assert(digits_value(s.drop_last()) == 0);
    } else {
        lemma_decimal_reads_back(n / 10);
        let s = decimal(n);
        assert(s.drop_last() =~= decimal(n / 10));
        assert(n % 10 < 10);
        assert(digit_value(digit(n % 10)) == n % 10);
        assert forall|i: int| 0 <= i < s.len() implies is_digit(#[trigger] s[i]) by {
            if i < s.len() - 1 {
                assert(s[i] == decimal(n / 10)[i]);
            }
        }
    }
    assert(is_digit(decimal(n)[0]));
}

/// Whether `c` is white space, by the Unicode property of that name.
pub open spec fn is_space(c: char) -> bool {
    let n = c as u32;
    ||| 0x09 <= n <= 0x0d
    ||| n == 0x20
    ||| n == 0x85
    ||| n == 0xa0
    ||| n == 0x1680
    ||| 0x2000 <= n <= 0x200a
    ||| n == 0x2028
    ||| n == 0x2029
    ||| n == 0x202f
    ||| n == 0x205f
    ||| n == 0x3000
}

/// Whether `c` is white space.
pub fn whitespace(c: char) -> (b: bool)
    ensures
        b == is_space(c),
{
    let n: u32 = c as u32;
    (0x09 <= n && n <= 0x0d) || n == 0x20 || n == 0x85 || n == 0xa0 || n == 0x1680 || (0x2000 <= n
        && n <= 0x200a) || n == 0x2028 || n == 0x2029 || n == 0x202f || n == 0x205f || n == 0x3000
}

/// `s` without white space at its front.
pub open spec fn trimmed_front(s: Seq<char>) -> Seq<char>
    decreases s.len(),
{
    if s.len() > 0 && is_space(s[0]) {
        trimmed_front(s.drop_first())
    } else {
        s
    }
}

/// `s` without white space at its back.
pub open spec fn trimmed_back(s: Seq<char>) -> Seq<char>
    decreases s.len(),
{
    if s.len() > 0 && is_space(s.last()) {
        trimmed_back(s.drop_last())
    } else {
        s
    }
}

/// `s` without white space at either end.
pub open spec fn trimmed(s: Seq<char>) -> Seq<char> {
    trimmed_back(trimmed_front(s))
}

/// The characters without white space at either end.
pub fn trim(s: &[char]) -> (v: Vec<char>)
    ensures
        v@ == trimmed(s@),
{
    let mut from: usize = 0;
    assert(s@.skip(0) =~= s@);
    while from < s.len() && whitespace(s[from])
        invariant
            from <= s@.len(),
            trimmed_front(s@) == trimmed_front(s@.skip(from as int)),
        decreases s@.len() - from,
    {
        assert(s@.skip(from as int).drop_first() =~= s@.skip(from + 1));
        from = from + 1;
    }
    let ghost front = s@.skip(from as int);
    assert(trimmed_front(s@) == front);
    let mut to: usize = s.len();
    assert(front =~= s@.subrange(from as int, to as int));
    while to > from && whitespace(s[to - 1])
        invariant
            from <= to <= s@.len(),
            trimmed_back(front) == trimmed_back(s@.subrange(from as int, to as int)),
        decreases to,
    {
        assert(s@.subrange(from as int, to as int).drop_last() =~= s@.subrange(
            from as int,
            to - 1,
        ));
        assert(s@.subrange(from as int, to as int).last() == s@[to - 1]);
        to = to - 1;
    }
    assert(from < to ==> s@.subrange(from as int, to as int).last() == s@[to - 1]);
    copy_range(s, from, to)
}

/// A copy of the characters from `from` up to `to`.
pub fn copy_range(s: &[char], from: usize, to: usize) -> (v: Vec<char>)
    requires
        from <= to <= s@.len(),
    ensures
        v@ == s@.subrange(from as int, to as int),
{
    let mut v: Vec<char> = Vec::new();
    let mut i: usize = from;
    while i < to
        invariant
            from <= i <= to <= s@.len(),
            v@ == s@.subrange(from as int, i as int),
        decreases to - i,
    {
        v.push(s[i]);
        i = i + 1;
        assert(v@ =~= s@.subrange(from as int, i as int));
    }
    v
}

/// Text without white space stays as it is.
pub proof fn lemma_trimmed_keeps(s: Seq<char>)
    requires
        s.len() > 0,
        !is_space(s[0]),
        !is_space(s.last()),
    ensures
        trimmed(s) == s,
{
}

/// `n` in decimal, as ASCII bytes.
pub open spec fn decimal_bytes(n: nat) -> Seq<u8>
    decreases n,
{
    if n < 10 {
        seq![(48 + n) as u8]
    } else {
        decimal_bytes(n / 10).push((48 + n % 10) as u8)
    }
}

/// Appends `n` in decimal, as ASCII bytes.
pub fn push_decimal_bytes(v: &mut Vec<u8>, n: u64)
    ensures
        final(v)@ == old(v)@ + decimal_bytes(n as nat),
    decreases n,
{
    if n >= 10 {
        push_decimal_bytes(v, n / 10);
    }
    v.push(48 + (n % 10) as u8);
    assert(v@ =~= old(v)@ + decimal_bytes(n as nat));
}

/// The fields of `s`, which `separator` parts. There is always at least one.
pub open spec fn fields<T>(s: Seq<T>, separator: T) -> Seq<Seq<T>>
    decreases s.len(),
{
    if s.len() == 0 {
        seq![Seq::empty()]
    } else {
        let before = fields(s.drop_last(), separator);
        if s.last() == separator {
            before.push(Seq::empty())
        } else {
            before.drop_last().push(before.last().push(s.last()))
        }
    }
}

/// There is always at least one field.
pub proof fn lemma_fields_nonempty<T>(s: Seq<T>, separator: T)
    ensures
        fields(s, separator).len() > 0,
    decreases s.len(),
{
    if s.len() > 0 {
        lemma_fields_nonempty(s.drop_last(), separator);
    }
}

/// The contents of a sequence of character vectors.
pub open spec fn char_contents(v: Seq<Vec<char>>) -> Seq<Seq<char>> {
    v.map_values(|c: Vec<char>| c@)
}

/// Parts text into fields.
pub fn split_fields(s: &[char], separator: char) -> (r: Vec<Vec<char>>)
    ensures
        char_contents(r@) == fields(s@, separator),
        r@.len() > 0,
{
    let mut done: Vec<Vec<char>> = Vec::new();
    let mut field: Vec<char> = Vec::new();
    let mut i: usize = 0;
    assert(s@.take(0) =~= Seq::<char>::empty());
    assert(char_contents(done@).push(field@) =~= seq![Seq::<char>::empty()]);
    while i < s.len()
        invariant
            i <= s@.len(),
            char_contents(done@).push(field@) == fields(s@.take(i as int), separator),
        decreases s@.len() - i,
    {
        let ghost so_far = s@.take(i + 1);
        let ghost before = char_contents(done@).push(field@);
        assert(so_far.drop_last() =~= s@.take(i as int));
        assert(so_far.last() == s@[i as int]);
        assert(before.last() == field@);
        assert(before.drop_last() =~= char_contents(done@));
        if s[i] == separator {
            let ghost ended = field@;
            done.push(field);
            field = Vec::new();
            assert(char_contents(done@).push(field@) =~= before.push(Seq::empty()));
        } else {
            field.push(s[i]);
            assert(char_contents(done@).push(field@) =~= before.drop_last().push(
                before.last().push(s@[i as int]),
            ));
        }
        i = i + 1;
    }
    assert(s@.take(i as int) =~= s@);
    let ghost last = field@;
    let ghost before = char_contents(done@);
    done.push(field);
    assert(char_contents(done@) =~= before.push(last));
    done
}

/// What separators part, joined by them again.
pub open spec fn joined<T>(parts: Seq<Seq<T>>, separator: T) -> Seq<T>
    decreases parts.len(),
{
    if parts.len() == 0 {
        Seq::empty()
    } else if parts.len() == 1 {
        parts[0]
    } else {
        joined(parts.drop_last(), separator).push(separator) + parts.last()
    }
}

/// Parting loses nothing: the fields of a sequence, joined by the separator, are
/// the sequence again, and no field holds the separator. So there is one field
/// more than there are separators.
pub proof fn law_fields_join_again<T>(s: Seq<T>, separator: T)
    ensures
        joined(fields(s, separator), separator) == s,
        forall|i: int| 0 <= i < fields(s, separator).len() ==> !(#[trigger] fields(s, separator)[i]).contains(
            separator,
        ),
    decreases s.len(),
{
    lemma_fields_nonempty(s, separator);
    if s.len() > 0 {
        let t = s.drop_last();
        law_fields_join_again(t, separator);
        lemma_fields_nonempty(t, separator);
        let before = fields(t, separator);
        let after = fields(s, separator);
        assert(t.push(s.last()) =~= s);
        if s.last() == separator {
            assert(after.drop_last() =~= before);
            assert(joined(before, separator).push(separator) + Seq::<T>::empty() =~= s);
        } else {
            let grown = before.last().push(s.last());
            assert(after.last() == grown);
            assert(after.drop_last() =~= before.drop_last());
            if before.len() == 1 {
                assert(before.last() == before[0]);
                assert(after[0] == grown);
            } else {
                assert(joined(before.drop_last(), separator).push(separator) + grown =~= (joined(
                    before.drop_last(),
                    separator,
                ).push(separator) + before.last()).push(s.last()));
            }
            assert forall|i: int| 0 <= i < after.len() implies !(#[trigger] after[i]).contains(
                separator,
            ) by {
                if i < after.len() - 1 {
                    assert(after[i] == before[i]);
                } else {
                    assert(!before[before.len() - 1].contains(separator));
                    if grown.contains(separator) {
                        let k = grown.index_of(separator);
                        if k < before.last().len() {
                            assert(before.last()[k] == separator);
                            assert(before.last().contains(separator));
                        }
                    }
                }
            }
        }
    }
}

/// The fields of two parts with a separator between them are the fields of the
/// one and the fields of the other.
pub proof fn law_fields_of_two_parts<T>(a: Seq<T>, b: Seq<T>, separator: T)
    ensures
        fields(a.push(separator) + b, separator) == fields(a, separator) + fields(b, separator),
    decreases b.len(),
{
    let s = a.push(separator) + b;
    if b.len() == 0 {
        assert(s =~= a.push(separator));
        assert(s.drop_last() =~= a);
        assert(fields(a, separator).push(Seq::empty()) =~= fields(a, separator)
            + seq![Seq::<T>::empty()]);
        assert(b =~= Seq::empty());
    } else {
        let t = b.drop_last();
        law_fields_of_two_parts(a, t, separator);
        lemma_fields_nonempty(t, separator);
        assert(s.drop_last() =~= a.push(separator) + t);
        assert(s.last() == b.last());
        let f = fields(a, separator) + fields(t, separator);
        assert(f.last() == fields(t, separator).last());
        assert(f.drop_last() =~= fields(a, separator) + fields(t, separator).drop_last());
        assert(fields(s, separator) =~= fields(a, separator) + fields(b, separator));
    }
}

/// Trimming takes white space off both ends and nothing else: what is left stands
/// between two runs of white space, and has none at either end.
pub proof fn law_trimming_takes_only_white_space(s: Seq<char>)
    ensures
        exists|front: Seq<char>, back: Seq<char>|
            s == #[trigger] (front + trimmed(s) + back) && all_space(front) && all_space(back),
        trimmed(s).len() > 0 ==> !is_space(trimmed(s)[0]) && !is_space(trimmed(s).last()),
{
    let t = trimmed_front(s);
    lemma_trimmed_front(s);
    lemma_trimmed_back(t);
    let front = s.take(s.len() - t.len());
    let back = t.skip(trimmed(s).len() as int);
    assert(s =~= front + trimmed(s) + back);
    if trimmed(s).len() > 0 {
        assert(trimmed(s)[0] == t[0]);
    }
}

/// Whether a text is white space throughout.
pub open spec fn all_space(s: Seq<char>) -> bool {
    forall|i: int| 0 <= i < s.len() ==> is_space(#[trigger] s[i])
}

proof fn lemma_trimmed_front(s: Seq<char>)
    ensures
        trimmed_front(s).len() <= s.len(),
        trimmed_front(s) == s.skip(s.len() - trimmed_front(s).len()),
        all_space(s.take(s.len() - trimmed_front(s).len())),
        trimmed_front(s).len() > 0 ==> !is_space(trimmed_front(s)[0]),
    decreases s.len(),
{
    let t = trimmed_front(s);
    if s.len() > 0 && is_space(s[0]) {
        let rest = s.drop_first();
        lemma_trimmed_front(rest);
        assert(s.skip(s.len() - t.len()) =~= rest.skip(rest.len() - t.len()));
        let front = s.take(s.len() - t.len());
        assert forall|i: int| 0 <= i < front.len() implies is_space(#[trigger] front[i]) by {
            if i > 0 {
                assert(rest.take(rest.len() - t.len())[i - 1] == front[i]);
            }
        }
    } else {
        assert(s.skip(0) =~= s);
    }
}

proof fn lemma_trimmed_back(s: Seq<char>)
    ensures
        trimmed_back(s).len() <= s.len(),
        trimmed_back(s) == s.take(trimmed_back(s).len() as int),
        all_space(s.skip(trimmed_back(s).len() as int)),
        trimmed_back(s).len() > 0 ==> !is_space(trimmed_back(s).last()),
    decreases s.len(),
{
    let t = trimmed_back(s);
    if s.len() > 0 && is_space(s.last()) {
        let rest = s.drop_last();
        lemma_trimmed_back(rest);
        assert(s.take(t.len() as int) =~= rest.take(t.len() as int));
        let back = s.skip(t.len() as int);
        assert forall|i: int| 0 <= i < back.len() implies is_space(#[trigger] back[i]) by {
            if i < back.len() - 1 {
                assert(rest.skip(t.len() as int)[i] == back[i]);
            }
        }
    } else {
        assert(s.take(s.len() as int) =~= s);
    }
}

/// What decimal digits are worth: a digit more makes a number ten times as large,
/// and adds the digit. Only digits, behind one plus sign at most, make a number.
pub proof fn law_digits_have_their_place(s: Seq<char>, d: nat)
    requires
        d < 10,
        all_digits(s),
    ensures
        digit(d) as u32 == 48 + d,
        number_in(s.push(digit(d))) == Some(digits_value(s) * 10 + d),
        number_in(seq!['+'] + s.push(digit(d))) == Some(digits_value(s) * 10 + d),
        number_in(Seq::empty()) is None,
{
    let t = s.push(digit(d));
    assert(t.drop_last() =~= s);
    assert forall|i: int| 0 <= i < t.len() implies is_digit(#[trigger] t[i]) by {
        if i < s.len() {
            assert(t[i] == s[i]);
        }
    }
    assert(is_digit(t[0]));
    assert((seq!['+'] + t).drop_first() =~= t);
}

/// Fractions are told to the digit: without its point, what is written of `n`
/// thousandths or hundredths is a number, and that number is `n`; the point stands
/// before the last three or two digits, and digits stand before it.
pub proof fn law_fractions_keep_their_digits(n: nat)
    ensures
        ({
            let t = thousandths(n);
            let h = hundredths(n);
            &&& t.len() >= 5 && t[t.len() - 4] == '.'
            &&& number_in(t.take(t.len() - 4) + t.skip(t.len() - 3)) == Some(n)
            &&& h.len() >= 4 && h[h.len() - 3] == '.'
            &&& number_in(h.take(h.len() - 3) + h.skip(h.len() - 2)) == Some(n)
        }),
{
    let w = decimal(n / 1000);
    let a = n / 100 % 10;
    let b = n / 10 % 10;
    let c = n % 10;
    lemma_decimal_reads_back(n / 1000);
    lemma_decimal_reads_back(n / 100);
    let t = thousandths(n);
    law_digits_have_their_place(w, a);
    lemma_digit_joins(w, a);
    law_digits_have_their_place(w.push(digit(a)), b);
    lemma_digit_joins(w.push(digit(a)), b);
    law_digits_have_their_place(w.push(digit(a)).push(digit(b)), c);
    assert(t.take(t.len() - 4) + t.skip(t.len() - 3) =~= w.push(digit(a)).push(digit(b)).push(
        digit(c),
    ));
    let v = decimal(n / 100);
    let h = hundredths(n);
    law_digits_have_their_place(v, b);
    lemma_digit_joins(v, b);
    law_digits_have_their_place(v.push(digit(b)), c);
    assert(h.take(h.len() - 3) + h.skip(h.len() - 2) =~= v.push(digit(b)).push(digit(c)));
}

proof fn lemma_digit_joins(s: Seq<char>, d: nat)
    requires
        d < 10,
        all_digits(s),
    ensures
        all_digits(s.push(digit(d))),
        digits_value(s.push(digit(d))) == digits_value(s) * 10 + d,
{
    let t = s.push(digit(d));
    assert(t.drop_last() =~= s);
    assert forall|i: int| 0 <= i < t.len() implies is_digit(#[trigger] t[i]) by {
        if i < s.len() {
            assert(t[i] == s[i]);
        }
    }
}

} // verus!
