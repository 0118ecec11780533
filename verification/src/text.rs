use vstd::prelude::*;

verus! {

/// `String::push` appends one character to the end of the string.
pub assume_specification[ String::push ](s: &mut String, ch: char)
    ensures
        final(s)@ == old(s)@.push(ch),
;

/// The ASCII character of a decimal digit.
pub open spec fn digit_char(d: nat) -> char {
    ((48 + d) as u8) as char
}

/// The decimal representation of `n`, most significant digit first and
/// without leading zeros (`"0"` for zero), as `usize::to_string` writes it.
pub open spec fn decimal(n: nat) -> Seq<char>
    decreases n,
{
    if n < 10 {
        seq![digit_char(n)]
    } else {
        decimal(n / 10).push(digit_char(n % 10))
    }
}

} // verus!

verus! {

/// Whether two strings hold the same characters.
pub fn same_text(a: &str, b: &str) -> (r: bool)
    ensures
        r == (a@ == b@),
{
    let n = a.unicode_len();
    if n != b.unicode_len() {
        return false;
    }
    let mut i: usize = 0;
    while i < n
        invariant
            n == a@.len() == b@.len(),
            i <= n,
            forall|j: int| 0 <= j < i ==> a@[j] == b@[j],
        decreases n - i,
    {
        if a.get_char(i) != b.get_char(i) {
            return false;
        }
        i = i + 1;
    }
    assert(a@ =~= b@);
    true
}

/// Whether `c` is an ASCII decimal digit.
pub open spec fn is_digit(c: char) -> bool {
    '0' <= c <= '9'
}

/// The value of a sequence of decimal digits, most significant first.
pub open spec fn digits_value(digits: Seq<char>) -> int
    decreases digits.len(),
{
    if digits.len() == 0 {
        0
    } else {
        digits_value(digits.drop_last()) * 10 + (digits.last() as int - 48)
    }
}

/// Whether `digits` is a non-empty run of decimal digits.
pub open spec fn is_decimal(digits: Seq<char>) -> bool {
    digits.len() > 0 && forall|i: int| 0 <= i < digits.len() ==> is_digit(#[trigger] digits[i])
}

/// What `str::parse` gives for an integer type ranging over `min..=max`
/// (`min < 0` for a signed type): an optional `+` (or `-` for a signed
/// type) followed by at least one ASCII digit, with a value in range.
pub open spec fn parsed_integer(s: Seq<char>, min: int, max: int) -> Option<int> {
    if s.len() == 0 || ((s[0] == '+' || s[0] == '-') && s.len() == 1) {
        None
    } else {
        let negative = s[0] == '-' && min < 0;
        let digits = if s[0] == '+' || negative {
            s.drop_first()
        } else {
            s
        };
        let value = if negative {
            -digits_value(digits)
        } else {
            digits_value(digits)
        };
        if is_decimal(digits) && min <= value <= max {
            Some(value)
        } else {
            None
        }
    }
}

proof fn lemma_digits_value_grows(digits: Seq<char>, k: int)
    requires
        0 <= k <= digits.len(),
        forall|i: int| 0 <= i < digits.len() ==> is_digit(#[trigger] digits[i]),
    ensures
        0 <= digits_value(digits.take(k)) <= digits_value(digits),
    decreases digits.len(),
{
    if digits.len() > 0 {
        assert(digits.drop_last() =~= digits.take(digits.len() - 1));
        if k < digits.len() {
            assert(digits.take(k) =~= digits.drop_last().take(k));
            lemma_digits_value_grows(digits.drop_last(), k);
        } else {
            assert(digits.take(k) =~= digits);
            lemma_digits_value_grows(digits.drop_last(), k - 1);
        }
    } else {
        assert(digits.take(k) =~= digits);
    }
}

/// Parse an integer in `min..=max` as `str::parse` does for the integer
/// type with that range.
pub fn parse_integer(s: &str, min: i128, max: i128) -> (r: Option<i128>)
    requires
        -0x1_0000_0000_0000_0000 < min <= 0 <= max < 0x1_0000_0000_0000_0000,
    ensures
        r matches Some(v) ==> parsed_integer(s@, min as int, max as int) == Some(v as int),
        r is None ==> parsed_integer(s@, min as int, max as int) is None,
{
    let n = s.unicode_len();
    if n == 0 {
        return None;
    }
    let first = s.get_char(0);
    if (first == '+' || first == '-') && n == 1 {
        return None;
    }
    let negative = first == '-' && min < 0;
    let start: usize = if first == '+' || negative { 1 } else { 0 };
    let limit: i128 = if negative { -min } else { max };
    let ghost digits = if start == 1 { s@.drop_first() } else { s@ };
    assert(first == s@[0]);
    assert(digits =~= s@.subrange(start as int, n as int));
    let mut value: i128 = 0;
    let mut i: usize = start;
    while i < n
        invariant
            start <= i <= n,
            n == s@.len(),
            start == (if first == '+' || negative { 1usize } else { 0usize }),
            start < n,
            first == s@[0],
            negative == (first == '-' && min < 0),
            !((first == '+' || first == '-') && n == 1),
            limit == (if negative { -min } else { max as int }),
            -0x1_0000_0000_0000_0000 < min <= 0 <= max < 0x1_0000_0000_0000_0000,
            digits == s@.subrange(start as int, n as int),
            digits == (if first == '+' || negative { s@.drop_first() } else { s@ }),
            0 <= value <= limit,
            limit < 0x1_0000_0000_0000_0000,
            forall|j: int| 0 <= j < i - start ==> is_digit(#[trigger] digits[j]),
            value == digits_value(digits.take(i - start)),
        decreases n - i,
    {
        let c = s.get_char(i);
        if !('0' <= c && c <= '9') {
            assert(!is_digit(digits[i - start]));
            assert(!is_decimal(digits));
            return None;
        }
        let d: i128 = (c as u32 - 48) as i128;
        proof {
            assert(digits.take(i - start + 1).drop_last() =~= digits.take(i - start));
        }
        value = value * 10 + d;
        assert(digits[i - start] == c);
        assert(value == digits_value(digits.take(i - start + 1)));
        if value > limit {
            proof {
                // Every longer run of digits only grows, so the value is out of range.
                if is_decimal(digits) {
                    lemma_digits_value_grows(digits, i - start + 1);
                    assert(digits_value(digits) > limit);
                    if negative {
                        assert(-digits_value(digits) < min);
                    } else {
                        assert(digits_value(digits) > max);
                    }
                }
                assert(parsed_integer(s@, min as int, max as int) is None);
            }
            return None;
        }
        i = i + 1;
    }
    proof {
        assert(digits.take(n - start) =~= digits);
        assert(digits.len() > 0);
    }
    if negative {
        Some(-value)
    } else {
        Some(value)
    }
}

} // verus!

verus! {

/// The pieces of `s` between occurrences of `sep`, as `str::split` with a
/// character gives them: always at least one piece, possibly empty.
pub open spec fn split_at_char(s: Seq<char>, sep: char) -> Seq<Seq<char>>
    decreases s.len(),
{
    if s.len() == 0 {
        seq![Seq::empty()]
    } else {
        let before = split_at_char(s.drop_last(), sep);
        if s.last() == sep {
            before.push(Seq::empty())
        } else {
            before.update(before.len() - 1, before.last().push(s.last()))
        }
    }
}

pub proof fn lemma_split_at_char_non_empty(s: Seq<char>, sep: char)
    ensures
        split_at_char(s, sep).len() >= 1,
    decreases s.len(),
{
    if s.len() > 0 {
        lemma_split_at_char_non_empty(s.drop_last(), sep);
    }
}

/// Split `s` at every occurrence of `sep`.
pub fn split_char(s: &str, sep: char) -> (r: Vec<String>)
    ensures
        r.deep_view() == split_at_char(s@, sep),
{
    let n = s.unicode_len();
    let mut done: Vec<String> = Vec::new();
    let mut current = String::new();
    let mut i: usize = 0;
    while i < n
        invariant
            i <= n,
            n == s@.len(),
            done.deep_view().push(current@) == split_at_char(s@.take(i as int), sep),
        decreases n - i,
    {
        let c = s.get_char(i);
        proof {
            assert(s@.take(i + 1).drop_last() =~= s@.take(i as int));
            lemma_split_at_char_non_empty(s@.take(i as int), sep);
        }
        if c == sep {
            done.push(current);
            current = String::new();
            assert(done.deep_view().push(current@) =~= split_at_char(s@.take(i + 1), sep));
        } else {
            current.push(c);
            assert(done.deep_view().push(current@) =~= split_at_char(s@.take(i + 1), sep));
        }
        i = i + 1;
    }
    done.push(current);
    assert(s@.take(n as int) =~= s@);
    done
}

} // verus!

verus! {

/// The decimal representation of a signed number: a `-` before negative
/// numbers, as `to_string` writes it.
pub open spec fn signed_decimal(n: int) -> Seq<char> {
    if n < 0 {
        seq!['-'] + decimal((-n) as nat)
    } else {
        decimal(n as nat)
    }
}

/// Append the decimal representation of `n` to `out`.
pub fn push_signed_decimal(out: &mut String, n: i64)
    ensures
        final(out)@ == old(out)@ + signed_decimal(n as int),
{
    if n < 0 {
        out.push('-');
        let magnitude: u64 = if n == i64::MIN {
            0x8000_0000_0000_0000
        } else {
            (-n) as u64
        };
        push_decimal(out, magnitude);
        assert(old(out)@ + seq!['-'] + decimal((-n) as nat) =~= old(out)@ + signed_decimal(n as int));
    } else {
        push_decimal(out, n as u64);
    }
}

/// Append the decimal representation of `n` to `out`.
pub fn push_decimal(out: &mut String, n: u64)
    ensures
        final(out)@ == old(out)@ + decimal(n as nat),
    decreases n,
{
    if n >= 10 {
        push_decimal(out, n / 10);
    }
    let d: u8 = (n % 10) as u8;
    out.push((48 + d) as char);
    proof {
        assert(((48 + d) as u8) as char == digit_char((n % 10) as nat));
    }
}

} // verus!

verus! {

/// The characters with the Unicode `White_Space` property, which
/// `char::is_whitespace` tests for.
pub open spec fn is_white_space(c: char) -> bool {
    let u = c as u32;
    (0x9 <= u <= 0xD) || u == 0x20 || u == 0x85 || u == 0xA0 || u == 0x1680 || (0x2000 <= u
        <= 0x200A) || u == 0x2028 || u == 0x2029 || u == 0x202F || u == 0x205F || u == 0x3000
}

/// Whether `c` has the Unicode `White_Space` property.
pub fn white_space(c: char) -> (r: bool)
    ensures
        r == is_white_space(c),
{
    let u = c as u32;
    (0x9 <= u && u <= 0xD) || u == 0x20 || u == 0x85 || u == 0xA0 || u == 0x1680 || (0x2000 <= u
        && u <= 0x200A) || u == 0x2028 || u == 0x2029 || u == 0x202F || u == 0x205F || u == 0x3000
}

/// `s` without leading white space.
pub open spec fn trim_start(s: Seq<char>) -> Seq<char>
    decreases s.len(),
{
    if s.len() > 0 && is_white_space(s[0]) {
        trim_start(s.drop_first())
    } else {
        s
    }
}

/// `s` without trailing white space.
pub open spec fn trim_end(s: Seq<char>) -> Seq<char>
    decreases s.len(),
{
    if s.len() > 0 && is_white_space(s.last()) {
        trim_end(s.drop_last())
    } else {
        s
    }
}

/// `s` without leading and trailing white space, as `str::trim` leaves it.
pub open spec fn trim(s: Seq<char>) -> Seq<char> {
    trim_end(trim_start(s))
}

/// `s` split at the first `c`, as `str::split_once` splits it: the text
/// before and the text after; none when `c` does not occur.
pub open spec fn split_once_at(s: Seq<char>, c: char) -> Option<(Seq<char>, Seq<char>)>
    decreases s.len(),
{
    if s.len() == 0 {
        None
    } else if s[0] == c {
        Some((Seq::empty(), s.drop_first()))
    } else {
        match split_once_at(s.drop_first(), c) {
            Some((before, after)) => Some((seq![s[0]] + before, after)),
            None => None,
        }
    }
}

proof fn lemma_trim_start_skip(s: Seq<char>, i: int)
    requires
        0 <= i <= s.len(),
        forall|j: int| 0 <= j < i ==> is_white_space(#[trigger] s[j]),
    ensures
        trim_start(s) == trim_start(s.skip(i)),
    decreases i,
{
    if i > 0 {
        assert(s.drop_first().skip(i - 1) =~= s.skip(i));
        lemma_trim_start_skip(s.drop_first(), i - 1);
    } else {
        assert(s.skip(0) =~= s);
    }
}

proof fn lemma_trim_end_take(s: Seq<char>, k: int)
    requires
        0 <= k <= s.len(),
        forall|j: int| k <= j < s.len() ==> is_white_space(#[trigger] s[j]),
    ensures
        trim_end(s) == trim_end(s.take(k)),
    decreases s.len() - k,
{
    if k < s.len() {
        assert(s.drop_last().take(k) =~= s.take(k));
        lemma_trim_end_take(s.drop_last(), k);
    } else {
        assert(s.take(k) =~= s);
    }
}

/// `s` without leading and trailing white space.
pub fn trim_text(s: &str) -> (r: String)
    ensures
        r@ == trim(s@),
{
    let n = s.unicode_len();
    let mut start: usize = 0;
    while start < n && white_space(s.get_char(start))
        invariant
            start <= n,
            n == s@.len(),
            forall|j: int| 0 <= j < start ==> is_white_space(#[trigger] s@[j]),
        decreases n - start,
    {
        start = start + 1;
    }
    proof {
        lemma_trim_start_skip(s@, start as int);
    }
    let ghost rest = s@.skip(start as int);
    assert(trim_start(rest) == rest);
    let mut end: usize = n;
    while end > start && white_space(s.get_char(end - 1))
        invariant
            start <= end <= n,
            n == s@.len(),
            rest == s@.skip(start as int),
            forall|j: int| end - start <= j < rest.len() ==> is_white_space(#[trigger] rest[j]),
        decreases end,
    {
        end = end - 1;
    }
    proof {
        lemma_trim_end_take(rest, end - start);
        assert(rest.take(end - start) =~= s@.subrange(start as int, end as int));
    }
    String::from_str(s.substring_char(start, end))
}

pub proof fn lemma_split_once_first(s: Seq<char>, c: char, i: int)
    requires
        0 <= i < s.len(),
        s[i] == c,
        forall|j: int| 0 <= j < i ==> s[j] != c,
    ensures
        split_once_at(s, c) == Some((s.take(i), s.skip(i + 1))),
    decreases i,
{
    if i > 0 {
        lemma_split_once_first(s.drop_first(), c, i - 1);
        assert(seq![s[0]] + s.drop_first().take(i - 1) =~= s.take(i));
        assert(s.drop_first().skip(i) =~= s.skip(i + 1));
    } else {
        assert(s.take(0) =~= Seq::<char>::empty());
        assert(s.skip(1) =~= s.drop_first());
    }
}

proof fn lemma_split_once_none(s: Seq<char>, c: char)
    requires
        forall|j: int| 0 <= j < s.len() ==> s[j] != c,
    ensures
        split_once_at(s, c) is None,
    decreases s.len(),
{
    if s.len() > 0 {
        lemma_split_once_none(s.drop_first(), c);
    }
}

/// Split `s` at the first `c`.
pub fn split_once_char(s: &str, c: char) -> (r: Option<(String, String)>)
    ensures
        r.deep_view() == split_once_at(s@, c),
{
    let n = s.unicode_len();
    let mut i: usize = 0;
    while i < n
        invariant
            i <= n,
            n == s@.len(),
            forall|j: int| 0 <= j < i ==> s@[j] != c,
        decreases n - i,
    {
        if s.get_char(i) == c {
            proof {
                lemma_split_once_first(s@, c, i as int);
                assert(s@.skip(i + 1) =~= s@.subrange(i + 1, n as int));
            }
            let before = String::from_str(s.substring_char(0, i));
            let after = String::from_str(s.substring_char(i + 1, n));
            return Some((before, after));
        }
        i = i + 1;
    }
    proof {
        lemma_split_once_none(s@, c);
    }
    None
}

} // verus!

verus! {

/// Field `index` of `parts` read as an integer in `min..=max`: none when
/// there is no such field, `Some(None)` when it is not such an integer.
pub open spec fn number_field(parts: Seq<Seq<char>>, index: int, min: int, max: int) -> Option<
    Option<int>,
> {
    if parts.len() <= index {
        None
    } else {
        Some(parsed_integer(parts[index], min, max))
    }
}

/// Read field `index` of `parts` as an integer in `min..=max`.
pub fn read_number(parts: &Vec<String>, index: usize, min: i128, max: i128) -> (r: Option<
    Option<i128>,
>)
    requires
        -0x1_0000_0000_0000_0000 < min <= 0 <= max < 0x1_0000_0000_0000_0000,
    ensures
        r matches None ==> number_field(parts.deep_view(), index as int, min as int, max as int)
            is None,
        r matches Some(None) ==> number_field(parts.deep_view(), index as int, min as int, max as int)
            == Some(None::<int>),
        r matches Some(Some(v)) ==> number_field(
            parts.deep_view(),
            index as int,
            min as int,
            max as int,
        ) == Some(Some(v as int)),
{
    if parts.len() <= index {
        return None;
    }
    Some(parse_integer(parts[index].as_str(), min, max))
}

} // verus!

verus! {

/// The pieces joined with `sep` between them, as `join` writes them.
pub open spec fn join_with(pieces: Seq<Seq<char>>, sep: char) -> Seq<char>
    decreases pieces.len(),
{
    if pieces.len() == 0 {
        Seq::empty()
    } else if pieces.len() == 1 {
        pieces[0]
    } else {
        join_with(pieces.drop_last(), sep) + seq![sep] + pieces.last()
    }
}

/// Splitting at a separator that was put between two texts splits both.
pub proof fn lemma_split_concat(x: Seq<char>, y: Seq<char>, sep: char)
    ensures
        split_at_char(x + seq![sep] + y, sep) == split_at_char(x, sep) + split_at_char(y, sep),
    decreases y.len(),
{
    lemma_split_at_char_non_empty(x, sep);
    if y.len() == 0 {
        assert((x + seq![sep] + y).drop_last() =~= x);
        assert(split_at_char(x, sep).push(Seq::empty()) =~= split_at_char(x, sep) + split_at_char(
            y,
            sep,
        ));
    } else {
        let z = x + seq![sep] + y;
        assert(z.drop_last() =~= x + seq![sep] + y.drop_last());
        lemma_split_concat(x, y.drop_last(), sep);
        lemma_split_at_char_non_empty(y.drop_last(), sep);
        let a = split_at_char(x, sep);
        let b = split_at_char(y.drop_last(), sep);
        if y.last() == sep {
            assert((a + b).push(Seq::empty()) =~= a + b.push(Seq::empty()));
        } else {
            assert((a + b).update((a + b).len() - 1, (a + b).last().push(y.last())) =~= a + b.update(
                b.len() - 1,
                b.last().push(y.last()),
            ));
        }
    }
}

/// A text without the separator is one piece.
pub proof fn lemma_split_without_sep(x: Seq<char>, sep: char)
    requires
        !x.contains(sep),
    ensures
        split_at_char(x, sep) == seq![x],
    decreases x.len(),
{
    if x.len() > 0 {
        assert(x.drop_last().len() < x.len());
        assert forall|i: int| 0 <= i < x.drop_last().len() implies x.drop_last()[i] != sep by {
            assert(x.drop_last()[i] == x[i]);
        }
        lemma_split_without_sep(x.drop_last(), sep);
        assert(x[x.len() - 1] != sep);
        assert(x.drop_last().push(x.last()) =~= x);
        assert(seq![x.drop_last()].update(0, x.drop_last().push(x.last())) =~= seq![x]);
    } else {
        assert(x =~= Seq::<char>::empty());
    }
}

/// Splitting what was joined gives back the pieces, when none holds the
/// separator.
pub proof fn lemma_split_join(pieces: Seq<Seq<char>>, sep: char)
    requires
        pieces.len() > 0,
        forall|i: int| 0 <= i < pieces.len() ==> !(#[trigger] pieces[i]).contains(sep),
    ensures
        split_at_char(join_with(pieces, sep), sep) == pieces,
    decreases pieces.len(),
{
    if pieces.len() == 1 {
        lemma_split_without_sep(pieces[0], sep);
        assert(seq![pieces[0]] =~= pieces);
    } else {
        lemma_split_join(pieces.drop_last(), sep);
        lemma_split_concat(join_with(pieces.drop_last(), sep), pieces.last(), sep);
        lemma_split_without_sep(pieces.last(), sep);
        assert(pieces.drop_last() + seq![pieces.last()] =~= pieces);
    }
}

proof fn lemma_digit_char(k: nat)
    requires
        k < 10,
    ensures
        digit_char(k) as int == 48 + k,
        is_digit(digit_char(k)),
{
    assert((48 + k) as u8 == 48 + k);
    assert(((48 + k) as u8) as char as int == 48 + k);
}

/// A decimal is a run of digits.
pub proof fn lemma_decimal_digits(n: nat)
    ensures
        is_decimal(decimal(n)),
        digits_value(decimal(n)) == n,
    decreases n,
{
    lemma_digit_char(n % 10);
    if n < 10 {
        assert(seq![digit_char(n)].drop_last() =~= Seq::<char>::empty());
        lemma_digit_char(n);
        assert(seq![digit_char(n)].last() == digit_char(n));
        assert(digits_value(seq![digit_char(n)].drop_last()) == 0);
        assert(digits_value(seq![digit_char(n)]) == n);
    } else {
        lemma_decimal_digits(n / 10);
        let d = decimal(n / 10);
        let full = d.push(digit_char(n % 10));
        assert(full.drop_last() =~= d);
        assert forall|i: int| 0 <= i < full.len() implies is_digit(#[trigger] full[i]) by {
            if i < d.len() {
                assert(full[i] == d[i]);
            }
        }
        assert(full.last() == digit_char(n % 10));
        assert(digits_value(full) == digits_value(d) * 10 + (n % 10));
        assert((n / 10) * 10 + n % 10 == n);
    }
}

/// Reading a decimal back gives the number.
pub proof fn lemma_parse_decimal(n: nat, max: int)
    requires
        n <= max,
    ensures
        parsed_integer(decimal(n), 0, max) == Some(n as int),
{
    lemma_decimal_digits(n);
    assert(is_digit(decimal(n)[0]));
}

/// Reading a signed decimal back gives the number.
pub proof fn lemma_parse_signed_decimal(n: int, min: int, max: int)
    requires
        min < 0,
        min <= n <= max,
    ensures
        parsed_integer(signed_decimal(n), min, max) == Some(n),
{
    if n < 0 {
        let m = (-n) as nat;
        lemma_decimal_digits(m);
        assert((seq!['-'] + decimal(m)).drop_first() =~= decimal(m));
    } else {
        lemma_decimal_digits(n as nat);
        assert(is_digit(decimal(n as nat)[0]));
    }
}


/// The words of `s`, as `str::split_whitespace` gives them: the maximal
/// runs of characters that are not white space, in order.
pub open spec fn words(s: Seq<char>) -> Seq<Seq<char>>
    decreases s.len(),
{
    if s.len() == 0 {
        Seq::empty()
    } else {
        let before = words(s.drop_last());
        let c = s.last();
        if is_white_space(c) {
            before
        } else if s.len() > 1 && !is_white_space(s[s.len() - 2]) {
            before.update(before.len() - 1, before.last().push(c))
        } else {
            before.push(seq![c])
        }
    }
}

proof fn lemma_words_after_word_char(s: Seq<char>)
    requires
        s.len() > 0,
        !is_white_space(s.last()),
    ensures
        words(s).len() > 0,
    decreases s.len(),
{
    if s.len() > 1 && !is_white_space(s[s.len() - 2]) {
        lemma_words_after_word_char(s.drop_last());
    }
}

/// The words of `s`, split at white space.
pub fn split_words(s: &str) -> (r: Vec<String>)
    ensures
        r.deep_view() == words(s@),
{
    let n = s.unicode_len();
    let mut out: Vec<String> = Vec::new();
    let mut in_word = false;
    let mut i: usize = 0;
    while i < n
        invariant
            i <= n,
            n == s@.len(),
            out.deep_view() == words(s@.take(i as int)),
            in_word == (i > 0 && !is_white_space(s@[i - 1])),
            in_word ==> out@.len() > 0,
        decreases n - i,
    {
        let c = s.get_char(i);
        let ghost prefix = s@.take(i as int);
        let ghost next = s@.take(i + 1);
        assert(next.drop_last() =~= prefix);
        assert(next.last() == c);
        if white_space(c) {
            in_word = false;
        } else if in_word {
            assert(next[next.len() - 2] == s@[i - 1]);
            let mut last = out.pop().unwrap();
            let ghost rest = out.deep_view();
            last.push(c);
            out.push(last);
            assert(out.deep_view() =~= words(prefix).update(words(prefix).len() - 1, words(
                prefix,
            ).last().push(c))) by {
                assert(words(prefix) =~= rest.push(words(prefix).last()));
            }
        } else {
            let mut w = String::new();
            w.push(c);
            out.push(w);
            assert(w@ =~= seq![c]);
            assert(out.deep_view() =~= words(prefix).push(seq![c]));
            in_word = true;
        }
        proof {
            if !is_white_space(c) {
                lemma_words_after_word_char(next);
            }
        }
        i = i + 1;
    }
    assert(s@.take(n as int) =~= s@);
    out
}


/// Whether every character of `s` is an ASCII digit.
pub open spec fn all_digits(s: Seq<char>) -> bool {
    forall|i: int| 0 <= i < s.len() ==> is_digit(#[trigger] s[i])
}

/// Whether `s` spells `word` (a word of lower-case ASCII letters) in any
/// mix of cases.
pub open spec fn same_ignoring_case(s: Seq<char>, word: Seq<char>) -> bool {
    &&& s.len() == word.len()
    &&& forall|i: int|
        0 <= i < s.len() ==> #[trigger] s[i] == word[i] || s[i] as u32 + 32 == word[i] as u32
}

/// `s` without a leading `+` or `-`.
pub open spec fn unsigned_part(s: Seq<char>) -> Seq<char> {
    if s.len() > 0 && (s[0] == '+' || s[0] == '-') {
        s.drop_first()
    } else {
        s
    }
}

/// Digits with at most one `.`, and at least one digit.
pub open spec fn mantissa_text(m: Seq<char>) -> bool {
    match split_once_at(m, '.') {
        None => m.len() > 0 && all_digits(m),
        Some((whole, fraction)) => all_digits(whole) && all_digits(fraction) && whole.len()
            + fraction.len() > 0,
    }
}

/// The digits of an exponent, after an optional sign.
pub open spec fn exponent_text(x: Seq<char>) -> bool {
    unsigned_part(x).len() > 0 && all_digits(unsigned_part(x))
}

/// A decimal number: a mantissa and an optional exponent after `e` or `E`.
pub open spec fn number_text(s: Seq<char>) -> bool {
    match split_once_at(s, 'e') {
        Some((m, x)) => mantissa_text(m) && exponent_text(x),
        None => match split_once_at(s, 'E') {
            Some((m, x)) => mantissa_text(m) && exponent_text(x),
            None => mantissa_text(s),
        },
    }
}

/// Whether `f32::from_str` reads `s`, by the grammar its documentation
/// gives: an optional sign, then `inf`, `infinity` or `nan` in any case, or
/// a decimal number with an optional exponent.
pub open spec fn float_text(s: Seq<char>) -> bool {
    let body = unsigned_part(s);
    same_ignoring_case(body, "inf"@) || same_ignoring_case(body, "infinity"@)
        || same_ignoring_case(body, "nan"@) || number_text(body)
}

fn digits_only(s: &str) -> (r: bool)
    ensures
        r == all_digits(s@),
{
    let n = s.unicode_len();
    let mut i: usize = 0;
    while i < n
        invariant
            i <= n,
            n == s@.len(),
            forall|j: int| 0 <= j < i ==> is_digit(#[trigger] s@[j]),
        decreases n - i,
    {
        let c = s.get_char(i);
        if !('0' <= c && c <= '9') {
            return false;
        }
        i = i + 1;
    }
    true
}

fn spells(s: &str, word: &str) -> (r: bool)
    ensures
        r == same_ignoring_case(s@, word@),
{
    let n = s.unicode_len();
    if n != word.unicode_len() {
        return false;
    }
    let mut i: usize = 0;
    while i < n
        invariant
            i <= n,
            n == s@.len(),
            n == word@.len(),
            forall|j: int|
                0 <= j < i ==> #[trigger] s@[j] == word@[j] || s@[j] as u32 + 32 == word@[j] as u32,
        decreases n - i,
    {
        let c = s.get_char(i);
        let w = word.get_char(i);
        if !(c == w || (c as u32) + 32 == (w as u32)) {
            return false;
        }
        i = i + 1;
    }
    true
}

fn without_sign(s: &str) -> (r: &str)
    ensures
        r@ == unsigned_part(s@),
{
    let n = s.unicode_len();
    if n > 0 && (s.get_char(0) == '+' || s.get_char(0) == '-') {
        let rest = s.substring_char(1, n);
        assert(rest@ =~= s@.drop_first());
        rest
    } else {
        s
    }
}

fn mantissa_ok(m: &str) -> (r: bool)
    ensures
        r == mantissa_text(m@),
{
    match split_once_char(m, '.') {
        None => m.unicode_len() > 0 && digits_only(m),
        Some((whole, fraction)) => digits_only(whole.as_str()) && digits_only(fraction.as_str())
            && (whole.as_str().unicode_len() > 0 || fraction.as_str().unicode_len() > 0),
    }
}

fn exponent_ok(x: &str) -> (r: bool)
    ensures
        r == exponent_text(x@),
{
    let d = without_sign(x);
    d.unicode_len() > 0 && digits_only(d)
}

fn number_ok(s: &str) -> (r: bool)
    ensures
        r == number_text(s@),
{
    match split_once_char(s, 'e') {
        Some((m, x)) => mantissa_ok(m.as_str()) && exponent_ok(x.as_str()),
        None => match split_once_char(s, 'E') {
            Some((m, x)) => mantissa_ok(m.as_str()) && exponent_ok(x.as_str()),
            None => mantissa_ok(s),
        },
    }
}

/// Whether `f32::from_str` reads `s` (see `float_text`).
pub fn is_float_text(s: &str) -> (r: bool)
    ensures
        r == float_text(s@),
{
    let body = without_sign(s);
    spells(body, "inf") || spells(body, "infinity") || spells(body, "nan") || number_ok(body)
}
} // verus!
