//! Text as a sequence of characters: the comparisons, cuts and renderings the
//! rest of the library is written with.

use vstd::prelude::*;

verus! {

/// `String::push` appends the character at the end of the text.
pub assume_specification[ String::push ](s: &mut String, c: char)
    ensures
        final(s)@ == old(s)@.push(c),
;

/// `str::eq`: two string slices are equal exactly when they hold the same
/// characters in the same order.
pub assume_specification[ <str as PartialEq>::eq ](a: &str, b: &str) -> (res: bool)
    ensures
        res == (a@ == b@),
;

/// What `{:?}` prints for a string: the text in double quotes, with std's
/// escapes. The escapes themselves are not spelled out.
pub uninterp spec fn debug_text(text: Seq<char>) -> Seq<char>;

/// `format!("{:?}")` of a string slice, whose result is named `debug_text`.
#[verifier::external_body]
pub(crate) fn quoted(text: &str) -> (res: String)
    ensures
        res@ == debug_text(text@),
{
    format!("{text:?}")
}

/// The characters of each text in a list.
pub open spec fn texts(list: Seq<String>) -> Seq<Seq<char>> {
    list.map_values(|text: String| text@)
}

/// A text that may be absent, by its characters.
pub open spec fn optional(text: Option<String>) -> Option<Seq<char>> {
    match text {
        Some(text) => Some(text@),
        None => None,
    }
}

/// The parts in order, with `sep` between neighbours.
pub open spec fn joined(parts: Seq<Seq<char>>, sep: Seq<char>) -> Seq<char>
    decreases parts.len(),
{
    if parts.len() == 0 {
        Seq::empty()
    } else if parts.len() == 1 {
        parts[0]
    } else {
        joined(parts.drop_last(), sep) + sep + parts.last()
    }
}

/// Lexicographic order on characters, which is the order of `String`.
pub open spec fn before(a: Seq<char>, b: Seq<char>) -> bool
    decreases a.len(),
{
    if b.len() == 0 {
        false
    } else if a.len() == 0 {
        true
    } else if a[0] != b[0] {
        a[0] < b[0]
    } else {
        before(a.drop_first(), b.drop_first())
    }
}

/// `text` without the `c`s it ends in.
pub open spec fn trimmed_end(text: Seq<char>, c: char) -> Seq<char>
    decreases text.len(),
{
    if text.len() > 0 && text.last() == c {
        trimmed_end(text.drop_last(), c)
    } else {
        text
    }
}

/// The first `limit` characters, or all of them when there are fewer.
pub open spec fn clipped(text: Seq<char>, limit: nat) -> Seq<char> {
    if text.len() <= limit {
        text
    } else {
        text.take(limit as int)
    }
}

pub open spec fn is_digit(c: char) -> bool {
    '0' <= c <= '9'
}

pub open spec fn is_lower(c: char) -> bool {
    'a' <= c <= 'z'
}

pub open spec fn is_upper(c: char) -> bool {
    'A' <= c <= 'Z'
}

/// An upper case ASCII letter as its lower case one, any other character as it is.
pub open spec fn lowered(c: char) -> char {
    if is_upper(c) {
        ((c as int) + 32) as char
    } else {
        c
    }
}

pub open spec fn digit(value: int) -> char {
    (('0' as int) + value) as char
}

/// Decimal notation without leading zeros.
pub open spec fn decimal_of(n: nat) -> Seq<char>
    decreases n,
{
    if n < 10 {
        seq![digit(n as int)]
    } else {
        decimal_of(n / 10).push(digit((n % 10) as int))
    }
}

/// Decimal notation, with a leading `-` on a negative number.
pub open spec fn signed_decimal_of(n: int) -> Seq<char> {
    if n < 0 {
        "-"@ + decimal_of((-n) as nat)
    } else {
        decimal_of(n as nat)
    }
}

pub open spec fn all_digits(text: Seq<char>) -> bool {
    forall|i: int| 0 <= i < text.len() ==> is_digit(#[trigger] text[i])
}

/// The number a sequence of decimal digits writes.
pub open spec fn digits_value(text: Seq<char>) -> int
    decreases text.len(),
{
    if text.len() == 0 {
        0
    } else {
        digits_value(text.drop_last()) * 10 + (text.last() as int - '0' as int)
    }
}

/// The number `text` writes: an optional sign and at least one decimal digit,
/// within the range of `i64`.
pub open spec fn integer_of(text: Seq<char>) -> Option<int> {
    let signed = text.len() > 0 && (text[0] == '-' || text[0] == '+');
    let digits = if signed {
        text.drop_first()
    } else {
        text
    };
    let value = if text.len() > 0 && text[0] == '-' {
        -digits_value(digits)
    } else {
        digits_value(digits)
    };
    if digits.len() > 0 && all_digits(digits) && i64::MIN <= value <= i64::MAX {
        Some(value)
    } else {
        None
    }
}

/// Whether the two texts hold the same characters.
pub fn same(a: &str, b: &str) -> (res: bool)
    ensures
        res == (a@ == b@),
{
    *a == *b
}

/// The characters of `text`, in order.
pub fn chars_of(text: &str) -> (res: Vec<char>)
    ensures
        res@ == text@,
{
    let mut res: Vec<char> = Vec::new();
    for c in iter: text.chars()
        invariant
            res@ == iter.seq().take(iter.index() as int),
            iter.seq() == text@,
    {
        res.push(c);
    }
    res
}

/// The text made of `chars[from..to]`.
pub fn text_of(chars: &Vec<char>, from: usize, to: usize) -> (res: String)
    requires
        from <= to <= chars@.len(),
    ensures
        res@ == chars@.subrange(from as int, to as int),
{
    let mut res = String::new();
    let mut i: usize = from;
    while i < to
        invariant
            from <= i <= to <= chars@.len(),
            res@ == chars@.subrange(from as int, i as int),
        decreases to - i,
    {
        res.push(chars[i]);
        i += 1;
    }
    res
}

/// A copy of the list, text for text.
pub fn copied(list: &[String]) -> (res: Vec<String>)
    ensures
        res@ == list@,
{
    let mut res: Vec<String> = Vec::new();
    let mut i: usize = 0;
    while i < list.len()
        invariant
            i <= list@.len(),
            res@ == list@.take(i as int),
        decreases list@.len() - i,
    {
        res.push(list[i].clone());
        i += 1;
    }
    res
}

/// A copy of a text that may be absent.
pub fn copied_option(text: &Option<String>) -> (res: Option<String>)
    ensures
        res == *text,
{
    match text {
        Some(text) => Some(text.clone()),
        None => None,
    }
}

/// Adds `item` at the end of the list.
pub fn add_to(list: &mut Vec<String>, item: String)
    ensures
        final(list)@ == old(list)@.push(item),
        texts(final(list)@) == texts(old(list)@).push(item@),
{
    let ghost before_it = list@;
    list.push(item);
    proof {
        assert(texts(list@) =~= texts(before_it).push(item@));
    }
}

/// Whether `item` is one of the texts.
pub fn holds(list: &[String], item: &str) -> (res: bool)
    ensures
        res == texts(list@).contains(item@),
{
    let mut i: usize = 0;
    while i < list.len()
        invariant
            i <= list@.len(),
            forall|j: int| 0 <= j < i ==> texts(list@)[j] != item@,
        decreases list@.len() - i,
    {
        if same(list[i].as_str(), item) {
            assert(texts(list@)[i as int] == item@);
            return true;
        }
        i += 1;
    }
    false
}

/// The texts in order, with `sep` between neighbours.
pub fn join(list: &[String], sep: &str) -> (res: String)
    ensures
        res@ == joined(texts(list@), sep@),
{
    let mut res = String::new();
    let mut i: usize = 0;
    while i < list.len()
        invariant
            i <= list@.len(),
            res@ == joined(texts(list@).take(i as int), sep@),
        decreases list@.len() - i,
    {
        proof {
            assert(texts(list@).take(i + 1).drop_last() =~= texts(list@).take(i as int));
            assert(texts(list@).take(i + 1).last() == list@[i as int]@);
        }
        if i > 0 {
            res.append(sep);
        }
        res.append(list[i].as_str());
        proof {
            if i == 0 {
                assert(res@ =~= list@[0]@);
            }
        }
        i += 1;
    }
    proof {
        assert(texts(list@).take(i as int) =~= texts(list@));
    }
    res
}

/// Whether `text` begins with `head`.
pub fn starts_with(text: &str, head: &str) -> (res: bool)
    ensures
        res == head@.is_prefix_of(text@),
{
    let size: usize = head.unicode_len();
    if text.unicode_len() < size {
        return false;
    }
    let start = text.substring_char(0, size);
    proof {
        assert(start@ == text@.subrange(0, head@.len() as int));
    }
    same(start, head)
}

/// Whether `text` ends with `tail`.
pub fn ends_with(text: &str, tail: &str) -> (res: bool)
    ensures
        res == tail@.is_suffix_of(text@),
{
    let size: usize = tail.unicode_len();
    let whole: usize = text.unicode_len();
    if whole < size {
        return false;
    }
    let end = text.substring_char(whole - size, whole);
    same(end, tail)
}

/// What follows `head` at the start of `text`.
pub fn strip_prefix<'a>(text: &'a str, head: &str) -> (res: Option<&'a str>)
    ensures
        match res {
            Some(rest) => text@ == head@ + rest@,
            None => !head@.is_prefix_of(text@),
        },
{
    if starts_with(text, head) {
        let rest = text.substring_char(head.unicode_len(), text.unicode_len());
        proof {
            assert(text@ =~= head@ + rest@);
        }
        Some(rest)
    } else {
        None
    }
}

/// The texts before and after the first `c`.
pub fn split_once<'a>(text: &'a str, c: char) -> (res: Option<(&'a str, &'a str)>)
    ensures
        match res {
            Some((head, tail)) => text@ == head@ + seq![c] + tail@ && !head@.contains(c),
            None => !text@.contains(c),
        },
{
    let chars = chars_of(text);
    let size: usize = chars.len();
    let mut at: usize = 0;
    while at < size
        invariant
            at <= size == chars@.len(),
            chars@ == text@,
            forall|j: int| 0 <= j < at ==> chars@[j] != c,
        decreases size - at,
    {
        if chars[at] == c {
            let head = text.substring_char(0, at);
            let tail = text.substring_char(at + 1, size);
            proof {
                assert(text@ =~= head@ + seq![c] + tail@);
            }
            return Some((head, tail));
        }
        at += 1;
    }
    None
}

/// `text` without the `c`s it ends in.
pub fn trim_end(text: &str, c: char) -> (res: &str)
    ensures
        res@ == trimmed_end(text@, c),
{
    let chars = chars_of(text);
    let mut size: usize = chars.len();
    proof {
        assert(text@.take(size as int) =~= text@);
    }
    while size > 0 && chars[size - 1] == c
        invariant
            size <= chars@.len(),
            chars@ == text@,
            trimmed_end(text@, c) == trimmed_end(text@.take(size as int), c),
        decreases size,
    {
        proof {
            assert(text@.take(size as int).drop_last() =~= text@.take(size - 1));
        }
        size -= 1;
    }
    let res = text.substring_char(0, size);
    proof {
        assert(res@ =~= text@.take(size as int));
    }
    res
}

/// The first `limit` characters.
pub fn clip(text: &str, limit: usize) -> (res: String)
    ensures
        res@ == clipped(text@, limit as nat),
{
    if text.unicode_len() <= limit {
        text.to_owned()
    } else {
        let start = text.substring_char(0, limit);
        proof {
            assert(start@ =~= text@.take(limit as int));
        }
        start.to_owned()
    }
}

/// Whether `a` sorts strictly before `b`.
pub fn sorts_before(a: &str, b: &str) -> (res: bool)
    ensures
        res == before(a@, b@),
{
    let left = chars_of(a);
    let right = chars_of(b);
    let mut i: usize = 0;
    proof {
        assert(left@.skip(0) =~= left@);
        assert(right@.skip(0) =~= right@);
    }
    while i < left.len() && i < right.len() && left[i] == right[i]
        invariant
            i <= left@.len(),
            i <= right@.len(),
            before(left@, right@) == before(left@.skip(i as int), right@.skip(i as int)),
        decreases left@.len() - i,
    {
        proof {
            assert(left@.skip(i as int).drop_first() =~= left@.skip(i + 1));
            assert(right@.skip(i as int).drop_first() =~= right@.skip(i + 1));
        }
        i += 1;
    }
    if i >= right.len() {
        false
    } else if i >= left.len() {
        true
    } else {
        left[i] < right[i]
    }
}

/// A lower case copy of an ASCII letter.
pub fn lower(c: char) -> (res: char)
    ensures
        res == lowered(c),
{
    if 'A' <= c && c <= 'Z' {
        ((c as u8) + 32) as char
    } else {
        c
    }
}

/// `n` in decimal notation.
pub fn decimal(n: u64) -> (res: String)
    ensures
        res@ == decimal_of(n as nat),
    decreases n,
{
    let mut res = if n < 10 {
        String::new()
    } else {
        decimal(n / 10)
    };
    let last: u8 = (n % 10) as u8;
    res.push((48 + last) as char);
    proof {
        if n < 10 {
            assert(res@ =~= seq![digit(n as int)]);
        }
    }
    res
}

/// `n` in decimal notation, with a leading `-` on a negative number.
pub fn signed_decimal(n: i64) -> (res: String)
    ensures
        res@ == signed_decimal_of(n as int),
{
    if n < 0 {
        let size: u64 = (-(n as i128)) as u64;
        "-".to_owned().concat(decimal(size).as_str())
    } else {
        decimal(n as u64)
    }
}

proof fn lemma_digits_value_grows(text: Seq<char>, from: int)
    requires
        0 <= from <= text.len(),
        all_digits(text),
    ensures
        0 <= digits_value(text.take(from)) <= digits_value(text),
    decreases text.len(), text.len() - from,
{
    if text.len() == 0 {
        assert(text.take(from) =~= text);
    } else if from == text.len() {
        assert(text.take(from) =~= text);
        lemma_digits_value_grows(text.drop_last(), from - 1);
        assert(text.drop_last().take(from - 1) =~= text.drop_last());
        assert(is_digit(text[text.len() - 1]));
    } else {
        lemma_digits_value_grows(text.drop_last(), from);
        assert(text.drop_last().take(from) =~= text.take(from));
        assert(is_digit(text[text.len() - 1]));
    }
}

/// What std says of a text that is no `i64`, in its own words.
pub uninterp spec fn integer_complaint(text: Seq<char>) -> Option<Seq<char>>;

/// `str::parse::<i64>`, and of its error the text. There is an error exactly where
/// the text is no optional sign followed by digits that make an `i64`; the text
/// alone decides which one, and its words are not spelled out.
#[verifier::external_body]
pub(crate) fn complaint_of_integer(text: &str) -> (res: Option<String>)
    ensures
        optional(res) == integer_complaint(text@),
        res is Some <==> integer_of(text@) is None,
{
    text.parse::<i64>().err().map(|error| error.to_string())
}

/// The number `text` writes, when it is one of `i64`.
pub fn parse_integer(text: &str) -> (res: Option<i64>)
    ensures
        match res {
            Some(value) => integer_of(text@) == Some(value as int),
            None => integer_of(text@) is None,
        },
{
    let chars = chars_of(text);
    let size: usize = chars.len();
    let negative = size > 0 && chars[0] == '-';
    let start: usize = if size > 0 && (chars[0] == '-' || chars[0] == '+') {
        1
    } else {
        0
    };
    let ghost digits = text@.skip(start as int);
    proof {
        if start == 1 {
            assert(digits =~= text@.drop_first());
        } else {
            assert(digits =~= text@);
        }
    }
    if start == size {
        return None;
    }
    let mut i: usize = start;
    let mut value: i128 = 0;
    while i < size
        invariant
            start <= i <= size == chars@.len(),
            chars@ == text@,
            digits == text@.skip(start as int),
            digits == (if text@[0] == '-' || text@[0] == '+' {
                text@.drop_first()
            } else {
                text@
            }),
            value == digits_value(digits.take(i - start)),
            0 <= value <= 0x8000_0000_0000_0000,
            all_digits(digits.take(i - start)),
        decreases size - i,
    {
        let c = chars[i];
        proof {
            assert(digits[i - start] == c);
            assert(digits.take(i - start + 1).drop_last() =~= digits.take(i - start));
            assert(digits.take(i - start + 1).last() == c);
        }
        if c < '0' || '9' < c {
            proof {
                assert(!is_digit(digits[i - start]));
            }
            return None;
        }
        value = value * 10 + ((c as u8) - 48) as i128;
        i += 1;
        proof {
            assert(all_digits(digits.take(i - start))) by {
                assert forall|j: int| 0 <= j < i - start implies is_digit(
                    #[trigger] digits.take(i - start)[j],
                ) by {
                    if j < i - start - 1 {
                        assert(digits.take(i - start)[j] == digits.take(i - start - 1)[j]);
                    }
                }
            }
        }
        if value > 0x8000_0000_0000_0000 {
            proof {
                if all_digits(digits) {
                    lemma_digits_value_grows(digits, i - start);
                }
            }
            return None;
        }
    }
    proof {
        assert(digits.take(size - start) =~= digits);
    }
    let signed: i128 = if negative {
        -value
    } else {
        value
    };
    if signed > 0x7fff_ffff_ffff_ffff {
        None
    } else {
        Some(signed as i64)
    }
}

/// A list with one more item holds what it held, and that item.
pub proof fn lemma_contains_push<T>(list: Seq<T>, item: T)
    ensures
        forall|x: T| #[trigger]
            list.push(item).contains(x) <==> (list.contains(x) || x == item),
{
    assert forall|x: T| #[trigger] list.push(item).contains(x) <==> (list.contains(x) || x
        == item) by {
        let longer = list.push(item);
        if list.contains(x) {
            let j = choose|j: int| 0 <= j < list.len() && list[j] == x;
            assert(longer[j] == x);
        }
        if x == item {
            assert(longer[list.len() as int] == x);
        }
        if longer.contains(x) && x != item {
            let j = choose|j: int| 0 <= j < longer.len() && longer[j] == x;
            assert(list[j] == x);
        }
    }
}

/// A prefix one longer holds what the shorter one held, and the item it adds.
pub proof fn lemma_contains_take<T>(list: Seq<T>, at: int)
    requires
        0 <= at < list.len(),
    ensures
        list.take(at + 1) == list.take(at).push(list[at]),
        forall|x: T| #[trigger]
            list.take(at + 1).contains(x) <==> (list.take(at).contains(x) || x == list[at]),
{
    assert(list.take(at + 1) =~= list.take(at).push(list[at]));
    lemma_contains_push(list.take(at), list[at]);
}

/// No text sorts before itself.
pub proof fn lemma_before_irreflexive(a: Seq<char>)
    ensures
        !before(a, a),
    decreases a.len(),
{
    if a.len() > 0 {
        lemma_before_irreflexive(a.drop_first());
    }
}

/// Sorting before is transitive.
pub proof fn lemma_before_transitive(a: Seq<char>, b: Seq<char>, c: Seq<char>)
    requires
        before(a, b),
        before(b, c),
    ensures
        before(a, c),
    decreases a.len(),
{
    if a.len() > 0 && b.len() > 0 && c.len() > 0 && a[0] == b[0] && b[0] == c[0] {
        lemma_before_transitive(a.drop_first(), b.drop_first(), c.drop_first());
    }
}

/// Of two different texts, one sorts before the other.
pub proof fn lemma_before_total(a: Seq<char>, b: Seq<char>)
    ensures
        a == b || before(a, b) || before(b, a),
    decreases a.len(),
{
    if a.len() == 0 {
        if b.len() == 0 {
            assert(a =~= b);
        }
    } else if b.len() > 0 && a[0] == b[0] {
        lemma_before_total(a.drop_first(), b.drop_first());
        if a.drop_first() == b.drop_first() {
            assert(a =~= seq![a[0]] + a.drop_first());
            assert(b =~= seq![b[0]] + b.drop_first());
        }
    }
}

/// A text comes apart at its first separator in one way only.
pub proof fn lemma_split_unique(
    a: Seq<char>,
    b: Seq<char>,
    c: Seq<char>,
    d: Seq<char>,
    separator: char,
)
    requires
        a + seq![separator] + b == c + seq![separator] + d,
        !a.contains(separator),
        !c.contains(separator),
    ensures
        a == c,
        b == d,
{
    let whole = a + seq![separator] + b;
    let other = c + seq![separator] + d;
    assert(whole[a.len() as int] == separator);
    assert(other[c.len() as int] == separator);
    if a.len() < c.len() {
        assert(other[a.len() as int] == c[a.len() as int]);
        assert(c.contains(c[a.len() as int]));
    } else if c.len() < a.len() {
        assert(whole[c.len() as int] == a[c.len() as int]);
        assert(a.contains(a[c.len() as int]));
    }
    assert(a =~= whole.take(a.len() as int));
    assert(c =~= other.take(c.len() as int));
    assert(b =~= whole.skip(a.len() as int + 1));
    assert(d =~= other.skip(c.len() as int + 1));
}

/// A number reads back as it was written, and is written without leading zeros.
pub proof fn law_decimals_read_back(n: i64, written: String)
    requires
        call_ensures(signed_decimal, (n,), written),
    ensures
        integer_of(written@) == Some(n as int),
        written@.len() > 1 ==> written@[0] != '0',
        n >= 0 ==> all_digits(written@),
        n < 0 ==> written@[0] == '-',
{
    let size = if n < 0 {
        (-n) as nat
    } else {
        n as nat
    };
    let digits = decimal_of(size);
    lemma_decimal_digits(size);
    if n < 0 {
        reveal_strlit("-");
        assert(written@.drop_first() =~= digits);
    }
    assert(is_digit(digits[0]));
}

proof fn lemma_decimal_digits(n: nat)
    ensures
        decimal_of(n).len() > 0,
        all_digits(decimal_of(n)),
        digits_value(decimal_of(n)) == n,
        n > 0 ==> decimal_of(n)[0] != '0',
        decimal_of(n).len() > 1 ==> n >= 10,
    decreases n,
{
    let written = decimal_of(n);
    if n < 10 {
        assert(written.drop_last() =~= Seq::<char>::empty());
        assert(digits_value(written.drop_last()) == 0);
    } else {
        lemma_decimal_digits(n / 10);
        assert(written.drop_last() =~= decimal_of(n / 10));
        assert(written[0] == decimal_of(n / 10)[0]);
    }
}

/// An unsigned number is written in the same digits as the signed one of its value.
pub proof fn law_decimals_have_their_value(n: u64, written: String)
    requires
        call_ensures(decimal, (n,), written),
    ensures
        all_digits(written@),
        digits_value(written@) == n,
        written@.len() > 1 ==> written@[0] != '0',
{
    lemma_decimal_digits(n as nat);
}

/// Nothing but the characters at the end is trimmed, and all of those.
pub proof fn law_only_the_end_is_trimmed<'a>(text: &'a str, c: char, kept: &'a str)
    requires
        call_ensures(trim_end, (text, c), kept),
    ensures
        kept@.len() <= text@.len(),
        kept@ == text@.take(kept@.len() as int),
        forall|i: int| kept@.len() <= i < text@.len() ==> #[trigger] text@[i] == c,
        kept@.len() > 0 ==> kept@.last() != c,
{
    lemma_trimmed_end(text@, c);
}

pub(crate) proof fn lemma_trimmed_end(text: Seq<char>, c: char)
    ensures
        ({
            let kept = trimmed_end(text, c);
            &&& kept.len() <= text.len()
            &&& kept == text.take(kept.len() as int)
            &&& forall|i: int| kept.len() <= i < text.len() ==> #[trigger] text[i] == c
            &&& kept.len() > 0 ==> kept.last() != c
        }),
    decreases text.len(),
{
    if text.len() > 0 && text.last() == c {
        let rest = text.drop_last();
        lemma_trimmed_end(rest, c);
        let kept = trimmed_end(text, c);
        assert(rest.take(kept.len() as int) =~= text.take(kept.len() as int));
        assert forall|i: int| kept.len() <= i < text.len() implies #[trigger] text[i] == c by {
            if i < rest.len() {
                assert(rest[i] == text[i]);
            }
        }
    } else {
        assert(text.take(text.len() as int) =~= text);
    }
}

/// Texts are joined in their order, with the separator between each and the next.
pub proof fn law_texts_are_joined_in_order(
    parts: Seq<Seq<char>>,
    last: Seq<char>,
    sep: Seq<char>,
)
    ensures
        joined(Seq::empty(), sep) == Seq::<char>::empty(),
        parts.len() == 0 ==> joined(parts.push(last), sep) == last,
        parts.len() > 0 ==> joined(parts.push(last), sep) == joined(parts, sep) + sep + last,
{
    assert(parts.push(last).drop_last() =~= parts);
}

/// A text that is clipped keeps its beginning, and no more than the limit of it.
pub proof fn law_a_clip_keeps_the_beginning(text: &str, limit: usize, kept: String)
    requires
        call_ensures(clip, (text, limit), kept),
    ensures
        kept@.is_prefix_of(text@),
        kept@.len() == if text@.len() <= limit {
            text@.len()
        } else {
            limit as nat
        },
{
    if text@.len() <= limit {
        assert(text@.subrange(0, text@.len() as int) =~= text@);
    }
}

/// A number is written in decimal digits, at least one, behind a sign if there is one.
pub proof fn law_numbers_are_written_in_digits(text: &str, res: Option<i64>)
    requires
        call_ensures(parse_integer, (text,), res),
        res is Some,
    ensures
        text@.len() > 0,
        text@[0] == '-' || text@[0] == '+' ==> text@.len() > 1,
        text@[0] == '-' || text@[0] == '+' || ('0' <= text@[0] && text@[0] <= '9'),
        forall|i: int| 1 <= i < text@.len() ==> '0' <= #[trigger] text@[i] && text@[i] <= '9',
{
    let signed = text@[0] == '-' || text@[0] == '+';
    let digits = if signed {
        text@.drop_first()
    } else {
        text@
    };
    assert forall|i: int| 1 <= i < text@.len() implies '0' <= #[trigger] text@[i] && text@[i]
        <= '9' by {
        if signed {
            assert(digits[i - 1] == text@[i]);
        }
        assert(is_digit(digits[if signed {
            i - 1
        } else {
            i
        }]));
    }
    if !signed {
        assert(is_digit(digits[0]));
    }
}

/// One digit more makes ten times the number and the digit, away from zero.
pub proof fn law_digits_count_tenfold(
    text: &str,
    longer: &str,
    digit: char,
    value: i64,
    res: Option<i64>,
)
    requires
        '0' <= digit && digit <= '9',
        longer@ == text@.push(digit),
        call_ensures(parse_integer, (text,), Some(value)),
        call_ensures(parse_integer, (longer,), res),
    ensures
        ({
            let due = if text@[0] == '-' {
                value * 10 - (digit as int - '0' as int)
            } else {
                value * 10 + (digit as int - '0' as int)
            };
            res == if i64::MIN <= due <= i64::MAX {
                Some(due as i64)
            } else {
                None
            }
        }),
{
    let signed = text@[0] == '-' || text@[0] == '+';
    let digits = if signed {
        text@.drop_first()
    } else {
        text@
    };
    let more = if signed {
        longer@.drop_first()
    } else {
        longer@
    };
    assert(longer@[0] == text@[0]);
    assert(more =~= digits.push(digit));
    assert(more.drop_last() =~= digits);
    assert(digits_value(more) == digits_value(digits) * 10 + (digit as int - '0' as int));
    assert forall|i: int| 0 <= i < more.len() implies is_digit(#[trigger] more[i]) by {
        if i < digits.len() {
            assert(more[i] == digits[i]);
        }
    }
    assert(all_digits(more));
}

/// A single digit is its own number.
pub proof fn law_a_digit_is_its_number(text: &str, digit: char, res: Option<i64>)
    requires
        '0' <= digit && digit <= '9',
        text@ == seq![digit] || text@ == seq!['+', digit] || text@ == seq!['-', digit],
        call_ensures(parse_integer, (text,), res),
    ensures
        res matches Some(value) && value == if text@[0] == '-' {
            '0' as int - digit as int
        } else {
            digit as int - '0' as int
        },
{
    let digits = if text@.len() == 2 {
        text@.drop_first()
    } else {
        text@
    };
    assert(digits =~= seq![digit]);
    assert(digits.drop_last() =~= Seq::<char>::empty());
    assert(digits_value(digits.drop_last()) == 0);
    assert(digits_value(digits) == digit as int - '0' as int);
    assert(all_digits(digits));
}

/// Of two texts the one sorts first that has the smaller character where they first
/// differ, or that ends there.
pub proof fn law_texts_sort_by_their_first_difference(a: &str, b: &str, at: int, res: bool)
    requires
        call_ensures(sorts_before, (a, b), res),
        0 <= at <= a@.len(),
        at <= b@.len(),
        a@.take(at) == b@.take(at),
        at == a@.len() || at == b@.len() || a@[at] != b@[at],
    ensures
        res <==> if at == b@.len() {
            false
        } else if at == a@.len() {
            true
        } else {
            a@[at] < b@[at]
        },
{
    lemma_before_at(a@, b@, at);
}

proof fn lemma_before_at(a: Seq<char>, b: Seq<char>, at: int)
    requires
        0 <= at <= a.len(),
        at <= b.len(),
        a.take(at) == b.take(at),
        at == a.len() || at == b.len() || a[at] != b[at],
    ensures
        before(a, b) <==> if at == b.len() {
            false
        } else if at == a.len() {
            true
        } else {
            a[at] < b[at]
        },
    decreases at,
{
    if at > 0 {
        assert(a[0] == a.take(at)[0]);
        assert(b[0] == b.take(at)[0]);
        let x = a.drop_first();
        let y = b.drop_first();
        assert(x.take(at - 1) =~= a.take(at).drop_first());
        assert(y.take(at - 1) =~= b.take(at).drop_first());
        lemma_before_at(x, y, at - 1);
    }
}

} // verus!
