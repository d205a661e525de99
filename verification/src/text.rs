//! Text helpers: characters and strings, decimal numerals, and text order.

use vstd::prelude::*;

verus! {

// ---------------------------------------------------------------------------
// Strings and characters
// ---------------------------------------------------------------------------

/// `str::eq` of std: two texts compare equal if and only if they hold the same
/// characters.
pub assume_specification[ <str as PartialEq<str>>::eq ](a: &str, b: &str) -> (r: bool)
    ensures
        r == (a@ == b@),
;

/// `String::push` of std: appends one character at the end.
pub assume_specification[ String::push ](s: &mut String, c: char)
    ensures
        final(s)@ == old(s)@.push(c),
;

/// Whether two texts hold the same characters.
pub fn same(a: &str, b: &str) -> (r: bool)
    ensures
        r == (a@ == b@),
{
    str::eq(a, b)
}

/// The characters of `s` in order.
pub fn to_chars(s: &str) -> (r: Vec<char>)
    ensures
        r@ == s@,
{
    let mut r: Vec<char> = Vec::new();
    for c in it: s.chars()
        invariant
            r@ == s@.take(it.index() as int),
            it.seq() == s@,
    {
        r.push(c);
        assert(s@.take(it.index() + 1) =~= s@.take(it.index() as int).push(c));
    }
    assert(s@.take(s@.len() as int) =~= s@);
    r
}

/// The characters of `chars` from `from` to before `to`, as text.
pub fn from_chars(chars: &Vec<char>, from: usize, to: usize) -> (r: String)
    requires
        from <= to <= chars@.len(),
    ensures
        r@ == chars@.subrange(from as int, to as int),
{
    let mut r = String::new();
    let mut i: usize = from;
    while i < to
        invariant
            from <= i <= to <= chars@.len(),
            r@ == chars@.subrange(from as int, i as int),
        decreases to - i,
    {
        r.push(chars[i]);
        i = i + 1;
        assert(chars@.subrange(from as int, i as int) =~= chars@.subrange(
            from as int,
            i - 1,
        ).push(chars@[i - 1]));
    }
    r
}

/// Whether `s` starts with `prefix`.
pub fn starts_with(s: &str, prefix: &str) -> (r: bool)
    ensures
        r == prefix@.is_prefix_of(s@),
{
    let chars = to_chars(s);
    let head = to_chars(prefix);
    if chars.len() < head.len() {
        return false;
    }
    let mut i: usize = 0;
    while i < head.len()
        invariant
            i <= head@.len() <= chars@.len(),
            chars@ == s@,
            head@ == prefix@,
            forall|k: int| 0 <= k < i ==> chars@[k] == head@[k],
        decreases head.len() - i,
    {
        if chars[i] != head[i] {
            assert(s@.take(prefix@.len() as int)[i as int] != prefix@[i as int]);
            return false;
        }
        i = i + 1;
    }
    assert(s@.take(prefix@.len() as int) =~= prefix@);
    true
}

/// What follows `prefix` in `s`, if `s` starts with it.
pub fn strip_prefix(s: &str, prefix: &str) -> (r: Option<String>)
    ensures
        match r {
            Some(rest) => s@ == prefix@ + rest@,
            None => !prefix@.is_prefix_of(s@),
        },
{
    if !starts_with(s, prefix) {
        return None;
    }
    let chars = to_chars(s);
    let from: usize = to_chars(prefix).len();
    let rest = from_chars(&chars, from, chars.len());
    assert(s@ =~= prefix@ + rest@);
    Some(rest)
}

/// Two texts one after the other.
pub fn join2(a: &str, b: &str) -> (r: String)
    ensures
        r@ == a@ + b@,
{
    let mut r = a.to_owned();
    r.append(b);
    r
}

/// Three texts one after the other.
pub fn join3(a: &str, b: &str, c: &str) -> (r: String)
    ensures
        r@ == a@ + b@ + c@,
{
    let mut r = join2(a, b);
    r.append(c);
    r
}

/// Where a mark occurs in neither head, the heads and the tails around it are
/// the same if the whole is.
pub proof fn lemma_split_at(a: Seq<char>, x: Seq<char>, b: Seq<char>, y: Seq<char>, mark: char)
    requires
        a.push(mark) + x == b.push(mark) + y,
        !a.contains(mark),
        !b.contains(mark),
    ensures
        a == b,
        x == y,
{
    let whole = a.push(mark) + x;
    let other = b.push(mark) + y;
    assert(whole[a.len() as int] == mark);
    assert(other[b.len() as int] == mark);
    if a.len() < b.len() {
        assert(other[a.len() as int] == b[a.len() as int]);
    } else if b.len() < a.len() {
        assert(whole[b.len() as int] == a[b.len() as int]);
    }
    assert(a =~= whole.take(a.len() as int));
    assert(b =~= other.take(b.len() as int));
    assert(x =~= whole.skip(a.len() as int + 1));
    assert(y =~= other.skip(b.len() as int + 1));
}

/// The place of the first mark, or the length if there is none.
pub open spec fn first_of(s: Seq<char>, mark: char) -> nat
    decreases s.len(),
{
    if s.len() == 0 {
        0
    } else if s[0] == mark {
        0
    } else {
        1 + first_of(s.drop_first(), mark)
    }
}

/// A place before which there is no mark is that of the first one.
pub proof fn lemma_first_of(s: Seq<char>, mark: char, at: int)
    requires
        0 <= at <= s.len(),
        at < s.len() ==> s[at] == mark,
        forall|i: int| 0 <= i < at ==> s[i] != mark,
    ensures
        first_of(s, mark) == at,
    decreases s.len(),
{
    if at > 0 {
        let rest = s.drop_first();
        assert forall|i: int| 0 <= i < at - 1 implies rest[i] != mark by {
            assert(rest[i] == s[i + 1]);
        }
        lemma_first_of(rest, mark, at - 1);
    }
}

/// The first mark behind a text without one.
pub proof fn lemma_first_behind(head: Seq<char>, mark: char, tail: Seq<char>)
    requires
        !head.contains(mark),
    ensures
        first_of(head.push(mark) + tail, mark) == head.len(),
        (head.push(mark) + tail).take(head.len() as int) == head,
        (head.push(mark) + tail).skip(head.len() as int + 1) == tail,
{
    let whole = head.push(mark) + tail;
    assert forall|i: int| 0 <= i < head.len() implies whole[i] != mark by {
        assert(whole[i] == head[i]);
        assert(head.contains(head[i]));
    }
    lemma_first_of(whole, mark, head.len() as int);
    assert(whole.take(head.len() as int) =~= head);
    assert(whole.skip(head.len() as int + 1) =~= tail);
}

/// The place of the first mark from `from` on, or the length if there is none.
pub fn find_from(chars: &Vec<char>, mark: char, from: usize) -> (r: usize)
    requires
        from <= chars@.len(),
    ensures
        from <= r <= chars@.len(),
        r - from == first_of(chars@.skip(from as int), mark),
{
    let ghost rest = chars@.skip(from as int);
    let mut i: usize = from;
    while i < chars.len() && chars[i] != mark
        invariant
            from <= i <= chars@.len(),
            rest == chars@.skip(from as int),
            forall|k: int| 0 <= k < i - from ==> rest[k] != mark,
        decreases chars.len() - i,
    {
        assert(rest[i - from] == chars@[i as int]);
        i = i + 1;
    }
    proof {
        lemma_first_of(rest, mark, i - from);
    }
    i
}

/// The texts with a mark between each two of them.
pub open spec fn joined(parts: Seq<Seq<char>>, mark: char) -> Seq<char>
    decreases parts.len(),
{
    if parts.len() == 0 {
        Seq::empty()
    } else if parts.len() == 1 {
        parts[0]
    } else {
        parts[0].push(mark) + joined(parts.drop_first(), mark)
    }
}

/// The texts from `from` on, with a mark between each two of them.
fn join_from(parts: &Vec<String>, mark: char, from: usize) -> (r: String)
    requires
        from <= parts@.len(),
    ensures
        r@ == joined(views(parts@).skip(from as int), mark),
    decreases parts@.len() - from,
{
    let ghost rest = views(parts@).skip(from as int);
    if from == parts.len() {
        String::new()
    } else if from + 1 == parts.len() {
        parts[from].clone()
    } else {
        let mut r = parts[from].clone();
        r.push(mark);
        let tail = join_from(parts, mark, from + 1);
        assert(rest.drop_first() =~= views(parts@).skip(from + 1));
        r.append(tail.as_str());
        r
    }
}

/// The texts with a mark between each two of them.
pub fn join_with(parts: &Vec<String>, mark: char) -> (r: String)
    ensures
        r@ == joined(views(parts@), mark),
{
    assert(views(parts@).skip(0) =~= views(parts@));
    join_from(parts, mark, 0)
}

/// Where the mark occurs in none of the texts but perhaps the last, as many
/// other such texts give the same whole only if they are the same texts.
pub proof fn lemma_joined_injective(a: Seq<Seq<char>>, b: Seq<Seq<char>>, mark: char)
    requires
        a.len() == b.len(),
        joined(a, mark) == joined(b, mark),
        forall|i: int| 0 <= i < a.len() - 1 ==> !(#[trigger] a[i]).contains(mark),
        forall|i: int| 0 <= i < b.len() - 1 ==> !(#[trigger] b[i]).contains(mark),
    ensures
        a == b,
    decreases a.len(),
{
    if a.len() == 0 {
        assert(a =~= b);
    } else if a.len() == 1 {
        assert(a =~= b);
    } else {
        let x = a.drop_first();
        let y = b.drop_first();
        lemma_split_at(a[0], joined(x, mark), b[0], joined(y, mark), mark);
        assert forall|i: int| 0 <= i < x.len() - 1 implies !(#[trigger] x[i]).contains(mark) by {
            assert(x[i] == a[i + 1]);
        }
        assert forall|i: int| 0 <= i < y.len() - 1 implies !(#[trigger] y[i]).contains(mark) by {
            assert(y[i] == b[i + 1]);
        }
        lemma_joined_injective(x, y, mark);
        assert(a =~= seq![a[0]] + x);
        assert(b =~= seq![b[0]] + y);
    }
}

// ---------------------------------------------------------------------------
// Decimal numerals
// ---------------------------------------------------------------------------

/// The character of a digit below ten.
pub open spec fn digit(d: nat) -> char {
    (48 + d) as char
}

/// The decimal numeral of `n`, without leading zeros.
pub open spec fn numeral(n: nat) -> Seq<char>
    decreases n,
{
    if n < 10 {
        seq![digit(n)]
    } else {
        numeral(n / 10).push(digit(n % 10))
    }
}

/// `count` zeros.
pub open spec fn zeros(count: nat) -> Seq<char> {
    Seq::new(count, |i: int| '0')
}

/// The decimal numeral of `n`, filled up with leading zeros to `width`.
pub open spec fn padded(n: nat, width: nat) -> Seq<char> {
    if numeral(n).len() >= width {
        numeral(n)
    } else {
        zeros((width - numeral(n).len()) as nat) + numeral(n)
    }
}

/// Whether `c` is one of the ten digits.
pub open spec fn is_digit(c: char) -> bool {
    48 <= c as u32 <= 57
}

/// Whether `s` holds digits only.
pub open spec fn all_digits(s: Seq<char>) -> bool {
    forall|i: int| 0 <= i < s.len() ==> is_digit(#[trigger] s[i])
}

/// The number that a row of digits denotes.
pub open spec fn digits_value(s: Seq<char>) -> nat
    decreases s.len(),
{
    if s.len() == 0 {
        0
    } else {
        digits_value(s.drop_last()) * 10 + (s.last() as u32 - 48) as nat
    }
}

/// What is left of a numeral behind an optional `+`.
pub open spec fn unsigned_part(s: Seq<char>) -> Seq<char> {
    if s.len() > 0 && s[0] == '+' {
        s.skip(1)
    } else {
        s
    }
}

/// The number that `s` denotes, if it is an optional `+` and at least one
/// digit, and the number is at most `max`.
pub open spec fn parsed(s: Seq<char>, max: nat) -> Option<nat> {
    let digits = unsigned_part(s);
    if digits.len() > 0 && all_digits(digits) && digits_value(digits) <= max {
        Some(digits_value(digits))
    } else {
        None
    }
}

fn digit_char(d: u64) -> (r: char)
    requires
        d < 10,
    ensures
        r == digit(d as nat),
{
    let code: u8 = 48u8 + d as u8;
    code as char
}

/// The decimal numeral of `n`.
pub fn u64_text(n: u64) -> (r: String)
    ensures
        r@ == numeral(n as nat),
    decreases n,
{
    if n < 10 {
        let mut r = String::new();
        r.push(digit_char(n));
        assert(r@ =~= seq![digit(n as nat)]);
        r
    } else {
        let mut r = u64_text(n / 10);
        r.push(digit_char(n % 10));
        r
    }
}

/// The decimal numeral of `n`, filled up with leading zeros to `width`.
pub fn padded_text(n: u64, width: usize) -> (r: String)
    ensures
        r@ == padded(n as nat, width as nat),
{
    let plain = u64_text(n);
    let len: usize = to_chars(plain.as_str()).len();
    let mut r = String::new();
    let mut filled: usize = len;
    while filled < width
        invariant
            len == plain@.len(),
            len <= filled,
            filled <= width || filled == len,
            r@ =~= zeros((filled - len) as nat),
        decreases width - filled,
    {
        r.push('0');
        filled = filled + 1;
    }
    r.append(plain.as_str());
    assert(zeros(0) + plain@ =~= plain@);
    r
}

/// Reads a number of at most `max`: an optional `+` and at least one digit.
pub fn parse_number(s: &str, max: u64) -> (r: Option<u64>)
    ensures
        r is Some <==> parsed(s@, max as nat) is Some,
        r is Some ==> r->0 as nat == parsed(s@, max as nat)->0,
{
    let chars = to_chars(s);
    let mut start: usize = 0;
    if chars.len() > 0 && chars[0] == '+' {
        start = 1;
    }
    let ghost digits = unsigned_part(s@);
    assert(digits =~= chars@.skip(start as int));
    if start == chars.len() {
        return None;
    }
    let mut value: u64 = 0;
    let mut i: usize = start;
    while i < chars.len()
        invariant
            start <= i <= chars@.len(),
            digits == chars@.skip(start as int),
            chars@ == s@,
            digits == unsigned_part(s@),
            all_digits(digits.take(i - start)),
            value as nat == digits_value(digits.take(i - start)),
            value <= max,
        decreases chars.len() - i,
    {
        let c = chars[i];
        let ghost n = i - start;
        assert(digits[n] == c);
        assert(digits.take(n + 1).drop_last() =~= digits.take(n));
        if !(48 <= c as u32 && c as u32 <= 57) {
            return None;
        }
        let d: u64 = (c as u32 - 48) as u64;
        proof {
            assert(digits.take(n + 1).last() == c);
            assert(digits_value(digits.take(n + 1)) == value * 10 + d);
        }
        if value > max / 10 || d > max - value * 10 {
            proof {
                lemma_value_monotone(digits, n + 1, digits.len() as int);
                assert(digits.take(digits.len() as int) =~= digits);
            }
            return None;
        }
        value = value * 10 + d;
        i = i + 1;
        assert(all_digits(digits.take(n + 1)));
    }
    assert(digits.take(digits.len() as int) =~= digits);
    Some(value)
}

/// A longer row of digits denotes a number at least as large.
proof fn lemma_value_monotone(s: Seq<char>, i: int, j: int)
    requires
        0 <= i <= j <= s.len(),
    ensures
        digits_value(s.take(i)) <= digits_value(s.take(j)),
    decreases j - i,
{
    if i < j {
        lemma_value_monotone(s, i, j - 1);
        assert(s.take(j).drop_last() =~= s.take(j - 1));
    }
}

/// A numeral is made of digits, is not empty, and denotes its number.
pub proof fn lemma_numeral(n: nat)
    ensures
        numeral(n).len() > 0,
        all_digits(numeral(n)),
        digits_value(numeral(n)) == n,
    decreases n,
{
    if n < 10 {
        assert(numeral(n).drop_last() =~= Seq::<char>::empty());
        assert(digits_value(numeral(n).drop_last()) == 0);
    } else {
        lemma_numeral(n / 10);
        assert(numeral(n).drop_last() =~= numeral(n / 10));
    }
}

/// Digits are no other mark.
pub proof fn lemma_digits_without(s: Seq<char>, mark: char)
    requires
        all_digits(s),
        !is_digit(mark),
    ensures
        !s.contains(mark),
{
    if s.contains(mark) {
        let i = choose|i: int| 0 <= i < s.len() && s[i] == mark;
        assert(is_digit(s[i]));
    }
}

/// Leading zeros do not change the number.
pub proof fn lemma_leading_zeros(count: nat, s: Seq<char>)
    ensures
        digits_value(zeros(count) + s) == digits_value(s),
    decreases count + s.len(),
{
    let whole = zeros(count) + s;
    if s.len() > 0 {
        assert(whole.drop_last() =~= zeros(count) + s.drop_last());
        lemma_leading_zeros(count, s.drop_last());
    } else if count > 0 {
        assert(whole.drop_last() =~= zeros((count - 1) as nat) + s);
        lemma_leading_zeros((count - 1) as nat, s);
    }
}

/// A padded numeral is made of digits, is not empty, and denotes its number.
pub proof fn lemma_padded(n: nat, width: nat)
    ensures
        padded(n, width).len() > 0,
        padded(n, width).len() >= width,
        all_digits(padded(n, width)),
        digits_value(padded(n, width)) == n,
{
    lemma_numeral(n);
    if numeral(n).len() < width {
        let count = (width - numeral(n).len()) as nat;
        lemma_leading_zeros(count, numeral(n));
        assert forall|i: int| 0 <= i < padded(n, width).len() implies is_digit(
            #[trigger] padded(n, width)[i],
        ) by {
            if i >= count {
                assert(padded(n, width)[i] == numeral(n)[i - count]);
            }
        }
    }
}

/// Reading a padded numeral gives back its number.
pub proof fn lemma_parsed_padded(n: nat, width: nat, max: nat)
    requires
        n <= max,
    ensures
        parsed(padded(n, width), max) == Some(n),
{
    lemma_padded(n, width);
    assert(is_digit(padded(n, width)[0]));
}

/// Reading a numeral gives back its number.
pub proof fn lemma_parsed_numeral(n: nat, max: nat)
    requires
        n <= max,
    ensures
        parsed(numeral(n), max) == Some(n),
{
    lemma_numeral(n);
    assert(is_digit(numeral(n)[0]));
}

// ---------------------------------------------------------------------------
// Text order
// ---------------------------------------------------------------------------

/// Whether `a` stands before `b` in the order of their code points, which is
/// the order of their UTF-8 bytes.
pub open spec fn precedes(a: Seq<char>, b: Seq<char>) -> bool
    decreases a.len(),
{
    if b.len() == 0 {
        false
    } else if a.len() == 0 {
        true
    } else if a[0] != b[0] {
        (a[0] as u32) < (b[0] as u32)
    } else {
        precedes(a.drop_first(), b.drop_first())
    }
}

/// Whether each text stands before the next.
pub open spec fn ascending(texts: Seq<Seq<char>>) -> bool {
    forall|i: int, j: int|
        0 <= i < j < texts.len() ==> precedes(#[trigger] texts[i], #[trigger] texts[j])
}

/// The characters of each of the strings.
pub open spec fn views(texts: Seq<String>) -> Seq<Seq<char>> {
    texts.map_values(|s: String| s@)
}

/// The order is total on different texts.
pub proof fn lemma_precedes_total(a: Seq<char>, b: Seq<char>)
    ensures
        precedes(a, b) || precedes(b, a) || a == b,
        !(precedes(a, b) && precedes(b, a)),
        precedes(a, b) ==> a != b,
    decreases a.len(),
{
    if a.len() > 0 && b.len() > 0 {
        lemma_precedes_total(a.drop_first(), b.drop_first());
        if a[0] == b[0] && a.drop_first() == b.drop_first() {
            assert(a =~= seq![a[0]] + a.drop_first());
            assert(b =~= seq![b[0]] + b.drop_first());
        }
        vstd::utf8::char_u32_cast(a[0], a[0] as u32);
        vstd::utf8::char_u32_cast(b[0], b[0] as u32);
    } else {
        assert(a.len() == 0 && b.len() == 0 ==> a =~= b);
    }
}

/// The order is transitive.
pub proof fn lemma_precedes_transitive(a: Seq<char>, b: Seq<char>, c: Seq<char>)
    requires
        precedes(a, b),
        precedes(b, c),
    ensures
        precedes(a, c),
    decreases a.len(),
{
    if a.len() > 0 {
        if a[0] == b[0] && b[0] == c[0] {
            lemma_precedes_transitive(a.drop_first(), b.drop_first(), c.drop_first());
        }
    }
}

/// Whether `a` stands before `b`.
pub fn text_precedes(a: &str, b: &str) -> (r: bool)
    ensures
        r == precedes(a@, b@),
{
    let left = to_chars(a);
    let right = to_chars(b);
    let mut i: usize = 0;
    assert(left@.skip(0) =~= a@);
    assert(right@.skip(0) =~= b@);
    while i < left.len() && i < right.len()
        invariant
            left@ == a@,
            right@ == b@,
            i <= left@.len(),
            i <= right@.len(),
            precedes(a@, b@) == precedes(left@.skip(i as int), right@.skip(i as int)),
        decreases left.len() - i,
    {
        let ghost l = left@.skip(i as int);
        let ghost r = right@.skip(i as int);
        if left[i] != right[i] {
            return (left[i] as u32) < (right[i] as u32);
        }
        assert(l.drop_first() =~= left@.skip(i + 1));
        assert(r.drop_first() =~= right@.skip(i + 1));
        i = i + 1;
    }
    i < right.len()
}

/// Puts `text` at its place among ascending texts, unless it is there already.
pub fn insert_ascending(texts: &mut Vec<String>, text: String)
    requires
        ascending(views(old(texts)@)),
    ensures
        ascending(views(final(texts)@)),
        views(final(texts)@).to_set() == views(old(texts)@).to_set().insert(text@),
{
    let ghost before = views(texts@);
    let mut i: usize = 0;
    while i < texts.len() && text_precedes(texts[i].as_str(), text.as_str())
        invariant
            texts@ == old(texts)@,
            before == views(texts@),
            i <= texts@.len(),
            forall|k: int| 0 <= k < i ==> precedes(#[trigger] before[k], text@),
        decreases texts.len() - i,
    {
        assert(before[i as int] == texts@[i as int]@);
        i = i + 1;
    }
    if i < texts.len() && same(texts[i].as_str(), text.as_str()) {
        assert(before[i as int] == text@);
        assert(before.to_set().insert(text@) =~= before.to_set());
        return;
    }
    proof {
        if i < texts@.len() {
            assert(before[i as int] == texts@[i as int]@);
            lemma_precedes_total(before[i as int], text@);
        }
    }
    let ghost value = text@;
    texts.insert(i, text);
    proof {
        let after = views(texts@);
        assert(after =~= before.insert(i as int, value));
        assert forall|p: int, q: int| 0 <= p < q < after.len() implies precedes(
            #[trigger] after[p],
            #[trigger] after[q],
        ) by {
            let n = i as int;
            let at = |k: int| if k < n { k } else { k - 1 };
            if p != n && q != n {
                assert(after[p] == before[at(p)]);
                assert(after[q] == before[at(q)]);
            } else if q == n {
                assert(after[p] == before[p]);
            } else {
                assert(after[q] == before[q - 1]);
                if q - 1 > n {
                    assert(precedes(before[n], before[q - 1]));
                    lemma_precedes_transitive(value, before[n], before[q - 1]);
                }
            }
        }
        assert forall|t: Seq<char>| after.contains(t) <==> before.contains(t) || t == value by {
            if before.contains(t) {
                let k = choose|k: int| 0 <= k < before.len() && before[k] == t;
                let k2 = if k < i { k } else { k + 1 };
                assert(after[k2] == t);
            }
            if t == value {
                assert(after[i as int] == t);
            }
            if after.contains(t) && t != value {
                let k = choose|k: int| 0 <= k < after.len() && after[k] == t;
                let k2 = if k < i { k } else { k - 1 };
                assert(before[k2] == t);
            }
        }
        assert(after.to_set() =~= before.to_set().insert(value));
    }
}

} // verus!
