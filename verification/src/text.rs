//! Character-level helpers shared by the rest of the library: building
//! strings, decimal numbers, whitespace handling and string ordering.
use vstd::prelude::*;

verus! {

/// Appends one character to a string (`String::push`).
#[verifier::external_body]
pub fn push_char(s: &mut String, c: char)
    ensures
        final(s)@ == old(s)@.push(c),
{
    s.push(c)
}

/// The characters of a string slice, in order.
pub fn chars_of(s: &str) -> (r: Vec<char>)
    ensures
        r@ == s@,
{
    let mut r: Vec<char> = Vec::new();
    for c in it: s.chars()
        invariant
            r@ == it.seq().take(it.index() as int),
            it.seq() == s@,
    {
        r.push(c);
    }
    r
}

/// A string made of the given characters.
pub fn string_of(v: &Vec<char>) -> (r: String)
    ensures
        r@ == v@,
{
    let mut r = String::new();
    let n = v.len();
    for i in 0..n
        invariant
            n == v.len(),
            r@ == v@.take(i as int),
    {
        push_char(&mut r, v[i]);
        assert(v@.take(i + 1) == v@.take(i as int).push(v@[i as int]));
    }
    assert(v@.take(n as int) == v@);
    r
}

/// Appends every character of `t` to `s`.
pub fn push_all(s: &mut String, t: &str)
    ensures
        final(s)@ == old(s)@ + t@,
{
    s.append(t);
}

/// The string for a literal or borrowed slice.
pub fn owned(t: &str) -> (r: String)
    ensures
        r@ == t@,
{
    String::from_str(t)
}

// ----------------------------------------------------------------------------
// Decimal numbers
// ----------------------------------------------------------------------------

pub open spec fn is_ascii_digit(c: char) -> bool {
    '0' <= c && c <= '9'
}

pub open spec fn all_ascii_digits(s: Seq<char>) -> bool {
    forall|i: int| 0 <= i < s.len() ==> is_ascii_digit(#[trigger] s[i])
}

/// The character of a decimal digit below ten.
pub open spec fn digit_char(d: nat) -> char {
    if d == 0 { '0' }
    else if d == 1 { '1' }
    else if d == 2 { '2' }
    else if d == 3 { '3' }
    else if d == 4 { '4' }
    else if d == 5 { '5' }
    else if d == 6 { '6' }
    else if d == 7 { '7' }
    else if d == 8 { '8' }
    else { '9' }
}

/// The value of an ASCII digit character.
pub open spec fn digit_value(c: char) -> nat {
    if c == '0' { 0 }
    else if c == '1' { 1 }
    else if c == '2' { 2 }
    else if c == '3' { 3 }
    else if c == '4' { 4 }
    else if c == '5' { 5 }
    else if c == '6' { 6 }
    else if c == '7' { 7 }
    else if c == '8' { 8 }
    else { 9 }
}

/// How `{}` prints a non-negative integer: its decimal digits, without
/// leading zeros ("0" for zero).
pub open spec fn decimal(n: nat) -> Seq<char>
    decreases n,
{
    if n < 10 {
        seq![digit_char(n)]
    } else {
        decimal(n / 10).push(digit_char(n % 10))
    }
}

/// The number that a sequence of ASCII digits denotes.
pub open spec fn digits_value(s: Seq<char>) -> nat
    decreases s.len(),
{
    if s.len() == 0 {
        0
    } else {
        digits_value(s.drop_last()) * 10 + digit_value(s.last())
    }
}

/// `n` printed in decimal, with '0's on the left up to `width` characters.
pub open spec fn zero_padded(n: nat, width: nat) -> Seq<char> {
    pad_left(decimal(n), width, '0')
}

/// `s` with `fill` on the left up to `width` characters (Rust's `{:>w}`).
pub open spec fn pad_left(s: Seq<char>, width: nat, fill: char) -> Seq<char> {
    if s.len() >= width {
        s
    } else {
        Seq::new((width - s.len()) as nat, |i: int| fill) + s
    }
}

/// `s` with `fill` on the right up to `width` characters (Rust's `{:w}` for strings).
pub open spec fn pad_right(s: Seq<char>, width: nat, fill: char) -> Seq<char> {
    if s.len() >= width {
        s
    } else {
        s + Seq::new((width - s.len()) as nat, |i: int| fill)
    }
}

proof fn lemma_digit_char(d: nat)
    requires
        d < 10,
    ensures
        is_ascii_digit(digit_char(d)),
        digit_value(digit_char(d)) == d,
{
}

/// A number printed in decimal is a non-empty run of digits that reads back
/// as the number.
pub proof fn lemma_decimal_digits(n: nat)
    ensures
        all_ascii_digits(decimal(n)),
        decimal(n).len() >= 1,
        digits_value(decimal(n)) == n,
    decreases n,
{
    if n < 10 {
        lemma_digit_char(n);
        let s = decimal(n);
        assert(s.drop_last() =~= Seq::<char>::empty());
        assert(digits_value(Seq::<char>::empty()) == 0);
        assert(s.last() == digit_char(n));
        assert(digits_value(s) == digits_value(s.drop_last()) * 10 + digit_value(s.last()));
    } else {
        lemma_decimal_digits(n / 10);
        lemma_digit_char(n % 10);
        let s = decimal(n);
        assert(s.drop_last() =~= decimal(n / 10));
        assert(s.last() == digit_char(n % 10));
        assert(digits_value(s) == digits_value(decimal(n / 10)) * 10 + digit_value(s.last()));
        assert(n == (n / 10) * 10 + n % 10);
        assert forall|i: int| 0 <= i < s.len() implies is_ascii_digit(#[trigger] s[i]) by {
            if i < s.len() - 1 {
                assert(s[i] == decimal(n / 10)[i]);
            }
        }
    }
}

fn digit_of(d: u64) -> (c: char)
    requires
        d < 10,
    ensures
        c == digit_char(d as nat),
{
    if d == 0 { '0' }
    else if d == 1 { '1' }
    else if d == 2 { '2' }
    else if d == 3 { '3' }
    else if d == 4 { '4' }
    else if d == 5 { '5' }
    else if d == 6 { '6' }
    else if d == 7 { '7' }
    else if d == 8 { '8' }
    else { '9' }
}

fn decimal_chars(n: u64) -> (r: Vec<char>)
    ensures
        r@ == decimal(n as nat),
    decreases n,
{
    if n < 10 {
        let mut r: Vec<char> = Vec::new();
        r.push(digit_of(n));
        assert(r@ =~= seq![digit_char(n as nat)]);
        r
    } else {
        let mut r = decimal_chars(n / 10);
        r.push(digit_of(n % 10));
        r
    }
}

/// Appends the decimal digits of `n` to `s`.
pub fn push_decimal(s: &mut String, n: u64)
    ensures
        final(s)@ == old(s)@ + decimal(n as nat),
{
    let digits = decimal_chars(n);
    let ghost start = s@;
    let k = digits.len();
    for i in 0..k
        invariant
            k == digits.len(),
            digits@ == decimal(n as nat),
            s@ == start + digits@.take(i as int),
    {
        push_char(s, digits[i]);
        assert(digits@.take(i + 1) == digits@.take(i as int).push(digits@[i as int]));
    }
    assert(digits@.take(k as int) == digits@);
}

/// Appends `n` in decimal to `s`, with `fill` on the left up to `width` characters.
pub fn push_padded_decimal(s: &mut String, n: u64, width: usize, fill: char)
    ensures
        final(s)@ == old(s)@ + pad_left(decimal(n as nat), width as nat, fill),
{
    let digits = decimal_chars(n);
    let ghost start = s@;
    if digits.len() < width {
        let pad = width - digits.len();
        let ghost fills = Seq::new(pad as nat, |i: int| fill);
        for i in 0..pad
            invariant
                s@ == start + fills.take(i as int),
                fills == Seq::new(pad as nat, |i: int| fill),
        {
            push_char(s, fill);
            assert(fills.take(i + 1) =~= fills.take(i as int).push(fill));
        }
        assert(fills.take(pad as int) =~= fills);
    }
    let ghost mid = s@;
    let k = digits.len();
    for i in 0..k
        invariant
            k == digits.len(),
            digits@ == decimal(n as nat),
            s@ == mid + digits@.take(i as int),
    {
        push_char(s, digits[i]);
        assert(digits@.take(i + 1) == digits@.take(i as int).push(digits@[i as int]));
    }
    assert(digits@.take(k as int) == digits@);
    assert(s@ =~= start + pad_left(decimal(n as nat), width as nat, fill));
}

/// Appends `t` to `s`, with `fill` on the right up to `width` characters.
pub fn push_padded_right(s: &mut String, t: &str, width: usize, fill: char)
    ensures
        final(s)@ == old(s)@ + pad_right(t@, width as nat, fill),
{
    let ghost start = s@;
    s.append(t);
    let len = t.unicode_len();
    if len < width {
        let pad = width - len;
        let ghost mid = s@;
        let ghost fills = Seq::new(pad as nat, |i: int| fill);
        for i in 0..pad
            invariant
                s@ == mid + fills.take(i as int),
                fills == Seq::new(pad as nat, |i: int| fill),
        {
            push_char(s, fill);
            assert(fills.take(i + 1) =~= fills.take(i as int).push(fill));
        }
        assert(fills.take(pad as int) =~= fills);
    }
    assert(s@ =~= start + pad_right(t@, width as nat, fill));
}

/// How `str::parse::<u32>` reads a string: an optional '+' and then at least
/// one ASCII digit, with a value that fits in 32 bits.
pub open spec fn parsed_u32(s: Seq<char>) -> Option<u32> {
    let body = if s.len() > 1 && s[0] == '+' { s.drop_first() } else { s };
    if body.len() > 0 && all_ascii_digits(body) && digits_value(body) <= u32::MAX {
        Some(digits_value(body) as u32)
    } else {
        None
    }
}

proof fn lemma_digits_value_push(s: Seq<char>, c: char)
    ensures
        digits_value(s.push(c)) == digits_value(s) * 10 + digit_value(c),
{
    assert(s.push(c).drop_last() =~= s);
}

proof fn lemma_digits_value_mono(s: Seq<char>, i: int)
    requires
        0 <= i <= s.len(),
    ensures
        digits_value(s.take(i)) <= digits_value(s),
    decreases s.len() - i,
{
    if i < s.len() {
        lemma_digits_value_mono(s, i + 1);
        lemma_digits_value_push(s.take(i), s[i]);
        assert(s.take(i).push(s[i]) =~= s.take(i + 1));
    } else {
        assert(s.take(i) =~= s);
    }
}

/// Reads a decimal `u32` the way `str::parse::<u32>` does.
pub fn parse_u32(s: &str) -> (r: Option<u32>)
    ensures
        r == parsed_u32(s@),
{
    let cs = chars_of(s);
    let start: usize = if cs.len() > 1 && cs[0] == '+' { 1 } else { 0 };
    let ghost body = if s@.len() > 1 && s@[0] == '+' { s@.drop_first() } else { s@ };
    assert(body =~= cs@.subrange(start as int, cs@.len() as int));
    if start >= cs.len() {
        return None;
    }
    let mut acc: u64 = 0;
    let mut i = start;
    while i < cs.len()
        invariant
            start <= i <= cs.len(),
            start < cs.len(),
            cs@ == s@,
            body == (if s@.len() > 1 && s@[0] == '+' { s@.drop_first() } else { s@ }),
            body == cs@.subrange(start as int, cs@.len() as int),
            all_ascii_digits(cs@.subrange(start as int, i as int)),
            acc == digits_value(cs@.subrange(start as int, i as int)),
            acc <= u32::MAX,
        decreases cs.len() - i,
    {
        let c = cs[i];
        if !('0' <= c && c <= '9') {
            assert(body[i - start] == c);
            assert(!is_ascii_digit(body[i - start]));
            assert(!all_ascii_digits(body));
            return None;
        }
        let d: u64 = (c as u32 - '0' as u32) as u64;
        assert(d == digit_value(c) as u64) by {
            assert('0' as u32 == 48);
        }
        let ghost prev = cs@.subrange(start as int, i as int);
        assert(cs@.subrange(start as int, i + 1) =~= prev.push(c));
        proof {
            lemma_digits_value_push(prev, c);
        }
        if acc * 10 + d > 4294967295 {
            proof {
                let pre = cs@.subrange(start as int, i + 1);
                assert(pre =~= body.take(i + 1 - start));
                assert(digits_value(pre) > u32::MAX);
                lemma_digits_value_mono(body, i + 1 - start);
                assert(digits_value(body) > u32::MAX);
            }
            return None;
        }
        acc = acc * 10 + d;
        i = i + 1;
    }
    assert(cs@.subrange(start as int, i as int) =~= body);
    Some(acc as u32)
}

// ----------------------------------------------------------------------------
// Whitespace
// ----------------------------------------------------------------------------

/// Unicode's White_Space characters, which `char::is_whitespace` accepts.
pub open spec fn is_whitespace(c: char) -> bool {
    let u = c as u32;
    (0x9 <= u && u <= 0xd) || u == 0x20 || u == 0x85 || u == 0xa0 || u == 0x1680
        || (0x2000 <= u && u <= 0x200a) || u == 0x2028 || u == 0x2029 || u == 0x202f
        || u == 0x205f || u == 0x3000
}

/// `char::is_whitespace`.
pub fn char_is_whitespace(c: char) -> (r: bool)
    ensures
        r == is_whitespace(c),
{
    let u = c as u32;
    (0x9 <= u && u <= 0xd) || u == 0x20 || u == 0x85 || u == 0xa0 || u == 0x1680
        || (0x2000 <= u && u <= 0x200a) || u == 0x2028 || u == 0x2029 || u == 0x202f
        || u == 0x205f || u == 0x3000
}

/// `s` without any whitespace character.
pub open spec fn without_whitespace(s: Seq<char>) -> Seq<char>
    decreases s.len(),
{
    if s.len() == 0 {
        s
    } else if is_whitespace(s.last()) {
        without_whitespace(s.drop_last())
    } else {
        without_whitespace(s.drop_last()).push(s.last())
    }
}

/// Removes every whitespace character.
pub fn remove_whitespace(s: &str) -> (r: String)
    ensures
        r@ == without_whitespace(s@),
{
    let cs = chars_of(s);
    let mut r = String::new();
    let n = cs.len();
    for i in 0..n
        invariant
            n == cs.len(),
            cs@ == s@,
            r@ == without_whitespace(cs@.take(i as int)),
    {
        let c = cs[i];
        assert(cs@.take(i + 1).drop_last() =~= cs@.take(i as int));
        if !char_is_whitespace(c) {
            push_char(&mut r, c);
        }
    }
    assert(cs@.take(n as int) =~= cs@);
    r
}

/// Whether some character of `s` is not whitespace (`!s.trim().is_empty()`).
pub open spec fn has_visible_char(s: Seq<char>) -> bool {
    exists|i: int| 0 <= i < s.len() && !is_whitespace(#[trigger] s[i])
}

pub fn is_blank(s: &str) -> (r: bool)
    ensures
        r == !has_visible_char(s@),
{
    let cs = chars_of(s);
    let n = cs.len();
    for i in 0..n
        invariant
            n == cs.len(),
            cs@ == s@,
            forall|j: int| 0 <= j < i ==> is_whitespace(#[trigger] cs@[j]),
    {
        if !char_is_whitespace(cs[i]) {
            return false;
        }
    }
    true
}

/// Whether the first `i` characters of `s` are all whitespace.
pub open spec fn leading_ws(s: Seq<char>, i: int) -> bool {
    forall|j: int| 0 <= j < i ==> is_whitespace(#[trigger] s[j])
}

/// `str::trim`: `s` without whitespace at either end.
pub open spec fn trimmed(s: Seq<char>) -> Seq<char> {
    if has_visible_char(s) {
        let first = choose|a: int| 0 <= a < s.len() && !is_whitespace(s[a]) && leading_ws(s, a);
        let last = choose|b: int|
            0 <= b < s.len() && !is_whitespace(s[b]) && (forall|j: int|
                b < j < s.len() ==> is_whitespace(#[trigger] s[j]));
        s.subrange(first, last + 1)
    } else {
        Seq::empty()
    }
}

/// `str::trim`.
pub fn trim(s: &str) -> (r: String)
    ensures
        r@ == trimmed(s@),
{
    let cs = chars_of(s);
    let n = cs.len();
    let mut a: usize = 0;
    while a < n && char_is_whitespace(cs[a])
        invariant
            n == cs.len(),
            cs@ == s@,
            a <= n,
            leading_ws(cs@, a as int),
        decreases n - a,
    {
        a = a + 1;
    }
    if a == n {
        assert(!has_visible_char(s@));
        return String::new();
    }
    let mut b: usize = n - 1;
    while char_is_whitespace(cs[b])
        invariant
            n == cs.len(),
            cs@ == s@,
            a < n,
            !is_whitespace(cs@[a as int]),
            a <= b < n,
            forall|j: int| b < j < n ==> is_whitespace(#[trigger] cs@[j]),
        decreases b,
    {
        b = b - 1;
    }
    proof {
        assert(has_visible_char(s@)) by {
            assert(!is_whitespace(s@[a as int]));
        }
        let first = choose|x: int| 0 <= x < s@.len() && !is_whitespace(s@[x]) && leading_ws(s@, x);
        let last = choose|y: int|
            0 <= y < s@.len() && !is_whitespace(s@[y]) && (forall|j: int|
                y < j < s@.len() ==> is_whitespace(#[trigger] s@[j]));
        assert(leading_ws(s@, a as int));
        if first < a {
            assert(is_whitespace(s@[first]));
        }
        if first > a {
            assert(is_whitespace(s@[a as int]));
        }
        if last < b {
            assert(is_whitespace(s@[b as int]));
        }
        if last > b {
            assert(is_whitespace(s@[last]));
        }
    }
    let mut r = String::new();
    let mut i = a;
    while i <= b
        invariant
            n == cs.len(),
            a <= i <= b + 1,
            b < n,
            r@ == cs@.subrange(a as int, i as int),
        decreases b + 1 - i,
    {
        push_char(&mut r, cs[i]);
        assert(cs@.subrange(a as int, i + 1) =~= cs@.subrange(a as int, i as int).push(
            cs@[i as int],
        ));
        i = i + 1;
    }
    r
}

// ----------------------------------------------------------------------------
// Replacement
// ----------------------------------------------------------------------------

/// Whether `pat` occurs in `s` at position `i`.
pub open spec fn occurs_at(s: Seq<char>, pat: Seq<char>, i: int) -> bool {
    0 <= i && i + pat.len() <= s.len() && s.subrange(i, i + pat.len()) == pat
}

/// `str::replace`: every non-overlapping occurrence of `pat`, from the left,
/// replaced by `rep`. `pat` is not empty.
pub open spec fn replaced_from(s: Seq<char>, pat: Seq<char>, rep: Seq<char>, i: int) -> Seq<char>
    decreases s.len() - i,
{
    if i < 0 || i >= s.len() || pat.len() == 0 {
        Seq::empty()
    } else if occurs_at(s, pat, i) {
        rep + replaced_from(s, pat, rep, i + pat.len())
    } else {
        seq![s[i]] + replaced_from(s, pat, rep, i + 1)
    }
}

pub open spec fn replaced(s: Seq<char>, pat: Seq<char>, rep: Seq<char>) -> Seq<char> {
    replaced_from(s, pat, rep, 0)
}

/// Replacing in `x + s` from a place inside `s` is replacing in `s`.
proof fn lemma_replaced_shift(x: Seq<char>, s: Seq<char>, pat: Seq<char>, rep: Seq<char>, i: int)
    requires
        0 <= i,
    ensures
        replaced_from(x + s, pat, rep, x.len() + i) == replaced_from(s, pat, rep, i),
    decreases s.len() - i,
{
    let xs = x + s;
    if i < s.len() && pat.len() > 0 {
        assert(occurs_at(xs, pat, x.len() + i) == occurs_at(s, pat, i)) by {
            if i + pat.len() <= s.len() {
                assert(xs.subrange(x.len() + i, x.len() + i + pat.len()) =~= s.subrange(i, i + pat.len()));
            }
        }
        assert(xs[x.len() + i] == s[i]);
        if occurs_at(s, pat, i) {
            lemma_replaced_shift(x, s, pat, rep, i + pat.len());
        } else {
            lemma_replaced_shift(x, s, pat, rep, i + 1);
        }
    }
}

/// `str::replace` replaces every occurrence, not only the first: a text that
/// starts with the pattern gives the replacement followed by the rest of the
/// text with its own occurrences replaced; a text that does not start with it
/// keeps its first character and goes on the same way.
pub proof fn lemma_replaced_every_occurrence(s: Seq<char>, pat: Seq<char>, rep: Seq<char>, c: char)
    requires
        pat.len() > 0,
    ensures
        replaced(pat + s, pat, rep) == rep + replaced(s, pat, rep),
        !occurs_at(seq![c] + s, pat, 0) ==> replaced(seq![c] + s, pat, rep) == seq![c] + replaced(s, pat, rep),
{
    let ps = pat + s;
    assert(ps.subrange(0, pat.len() as int) =~= pat);
    assert(occurs_at(ps, pat, 0));
    lemma_replaced_shift(pat, s, pat, rep, 0);
    let cs = seq![c] + s;
    lemma_replaced_shift(seq![c], s, pat, rep, 0);
    assert(cs[0] == c);
}

/// Where the replacement shares no character with the pattern and is not
/// empty, no occurrence of the pattern is left after replacing.
pub proof fn lemma_replaced_leaves_no_pattern(s: Seq<char>, pat: Seq<char>, rep: Seq<char>)
    requires
        pat.len() > 0,
        rep.len() > 0,
        forall|a: int, b: int| 0 <= a < rep.len() && 0 <= b < pat.len() ==> rep[a] != pat[b],
    ensures
        forall|k: int| !occurs_at(#[trigger] replaced(s, pat, rep), pat, k),
{
    lemma_no_pattern_from(s, pat, rep, 0);
    assert forall|k: int| !occurs_at(#[trigger] replaced(s, pat, rep), pat, k) by {
        if occurs_at(replaced(s, pat, rep), pat, k) {
            assert(replaced(s, pat, rep).subrange(k, k + pat.len()) == pat);
        }
    }
}

/// The characters from `i` on are copied as they are up to `i + t`, where no
/// occurrence starts before.
proof fn lemma_copied_run(s: Seq<char>, pat: Seq<char>, rep: Seq<char>, i: int, t: int)
    requires
        pat.len() > 0,
        0 <= i,
        0 <= t,
        i + t <= s.len(),
        forall|q: int| i <= q < i + t ==> !#[trigger] occurs_at(s, pat, q),
    ensures
        replaced_from(s, pat, rep, i) == s.subrange(i, i + t) + replaced_from(s, pat, rep, i + t),
    decreases t,
{
    if t == 0 {
        assert(s.subrange(i, i) =~= Seq::<char>::empty());
        assert(Seq::<char>::empty() + replaced_from(s, pat, rep, i) =~= replaced_from(s, pat, rep, i));
    } else {
        assert(!occurs_at(s, pat, i));
        lemma_copied_run(s, pat, rep, i + 1, t - 1);
        assert(seq![s[i]] + (s.subrange(i + 1, i + t) + replaced_from(s, pat, rep, i + t)) =~= s.subrange(
            i,
            i + t,
        ) + replaced_from(s, pat, rep, i + t));
    }
}

/// No window of what is replaced from `i` on spells the pattern.
proof fn lemma_no_pattern_from(s: Seq<char>, pat: Seq<char>, rep: Seq<char>, i: int)
    requires
        pat.len() > 0,
        rep.len() > 0,
        0 <= i,
        forall|a: int, b: int| 0 <= a < rep.len() && 0 <= b < pat.len() ==> rep[a] != pat[b],
    ensures
        forall|k: int|
            0 <= k && k + pat.len() <= replaced_from(s, pat, rep, i).len() ==> #[trigger] replaced_from(
                s,
                pat,
                rep,
                i,
            ).subrange(k, k + pat.len()) != pat,
    decreases s.len() - i,
{
    let m = pat.len() as int;
    let r = replaced_from(s, pat, rep, i);
    if i >= s.len() {
    } else if occurs_at(s, pat, i) {
        lemma_no_pattern_from(s, pat, rep, i + m);
        let rest = replaced_from(s, pat, rep, i + m);
        assert(r == rep + rest);
        assert forall|k: int| 0 <= k && k + m <= r.len() implies #[trigger] r.subrange(k, k + m) != pat by {
            if k < rep.len() {
                assert(r.subrange(k, k + m)[0] == rep[k]);
            } else {
                assert(r.subrange(k, k + m) =~= rest.subrange(k - rep.len(), k - rep.len() + m));
            }
        }
    } else {
        lemma_no_pattern_from(s, pat, rep, i + 1);
        let rest = replaced_from(s, pat, rep, i + 1);
        assert(r == seq![s[i]] + rest);
        assert forall|k: int| 0 <= k && k + m <= r.len() implies #[trigger] r.subrange(k, k + m) != pat by {
            if k >= 1 {
                assert(r.subrange(k, k + m) =~= rest.subrange(k - 1, k - 1 + m));
            } else {
                lemma_first_window(s, pat, rep, i, 1);
            }
        }
    }
}

/// The first window of what is replaced from `i`, where no occurrence starts
/// at `i`, is not the pattern: scanning `t` characters on from `i`.
proof fn lemma_first_window(s: Seq<char>, pat: Seq<char>, rep: Seq<char>, i: int, t: int)
    requires
        pat.len() > 0,
        rep.len() > 0,
        0 <= i < s.len(),
        1 <= t <= pat.len(),
        i + t <= s.len(),
        forall|a: int, b: int| 0 <= a < rep.len() && 0 <= b < pat.len() ==> rep[a] != pat[b],
        forall|q: int| i <= q < i + t ==> !#[trigger] occurs_at(s, pat, q),
    ensures
        pat.len() <= replaced_from(s, pat, rep, i).len() ==> replaced_from(s, pat, rep, i).subrange(
            0,
            pat.len() as int,
        ) != pat,
    decreases pat.len() - t,
{
    let m = pat.len() as int;
    let r = replaced_from(s, pat, rep, i);
    lemma_copied_run(s, pat, rep, i, t);
    let rest = replaced_from(s, pat, rep, i + t);
    assert(r == s.subrange(i, i + t) + rest);
    if t == m {
        if m <= r.len() {
            assert(r.subrange(0, m) =~= s.subrange(i, i + m));
            assert(!occurs_at(s, pat, i));
        }
    } else if i + t == s.len() {
        assert(rest == Seq::<char>::empty());
        assert(r.len() == t);
    } else if occurs_at(s, pat, i + t) {
        assert(rest == rep + replaced_from(s, pat, rep, i + t + m));
        if m <= r.len() {
            assert(r[t] == rep[0]);
            assert(r.subrange(0, m)[t] == r[t]);
            assert(rep[0] != pat[t]);
        }
    } else {
        lemma_first_window(s, pat, rep, i, t + 1);
    }
}

fn occurs_at_exec(s: &Vec<char>, pat: &Vec<char>, i: usize) -> (r: bool)
    requires
        i < s.len(),
    ensures
        r == occurs_at(s@, pat@, i as int),
{
    if pat.len() > s.len() - i {
        return false;
    }
    let m = pat.len();
    for j in 0..m
        invariant
            m == pat.len(),
            i + m <= s.len(),
            forall|k: int| 0 <= k < j ==> s@[i + k] == pat@[k],
    {
        if s[i + j] != pat[j] {
            assert(s@.subrange(i as int, i + m)[j as int] != pat@[j as int]);
            return false;
        }
    }
    assert(s@.subrange(i as int, i + m) =~= pat@);
    true
}

/// `str::replace` with a non-empty pattern.
pub fn replace(s: &str, pat: &str, rep: &str) -> (r: String)
    requires
        pat@.len() > 0,
    ensures
        r@ == replaced(s@, pat@, rep@),
{
    let cs = chars_of(s);
    let ps = chars_of(pat);
    let n = cs.len();
    let mut r = String::new();
    let mut i: usize = 0;
    while i < n
        invariant
            n == cs.len(),
            cs@ == s@,
            ps@ == pat@,
            ps@.len() > 0,
            i <= n,
            r@ + replaced_from(cs@, ps@, rep@, i as int) == replaced(cs@, ps@, rep@),
        decreases n - i,
    {
        if occurs_at_exec(&cs, &ps, i) {
            let ghost before = r@;
            r.append(rep);
            assert(before + replaced_from(cs@, ps@, rep@, i as int) == before + (rep@
                + replaced_from(cs@, ps@, rep@, i + ps@.len())));
            assert(before + (rep@ + replaced_from(cs@, ps@, rep@, i + ps@.len())) =~= r@
                + replaced_from(cs@, ps@, rep@, i + ps@.len()));
            i = i + ps.len();
        } else {
            let ghost before = r@;
            push_char(&mut r, cs[i]);
            assert(before + (seq![cs@[i as int]] + replaced_from(cs@, ps@, rep@, i + 1)) =~= r@
                + replaced_from(cs@, ps@, rep@, i + 1));
            i = i + 1;
        }
    }
    assert(replaced_from(cs@, ps@, rep@, i as int) == Seq::<char>::empty());
    assert(r@ =~= r@ + Seq::<char>::empty());
    r
}

/// Whether two strings hold the same characters.
pub fn same_text(a: &str, b: &str) -> (r: bool)
    ensures
        r == (a@ == b@),
{
    let x = chars_of(a);
    let y = chars_of(b);
    if x.len() != y.len() {
        return false;
    }
    let n = x.len();
    for i in 0..n
        invariant
            n == x.len(),
            n == y.len(),
            x@ == a@,
            y@ == b@,
            forall|j: int| 0 <= j < i ==> x@[j] == y@[j],
    {
        if x[i] != y[i] {
            return false;
        }
    }
    assert(x@ =~= y@);
    true
}

// ----------------------------------------------------------------------------
// Ordering
// ----------------------------------------------------------------------------

/// Whether `a` comes before `b` in the order of `String`'s `<`, looking from
/// position `i` on, where the two agree before `i`.
pub open spec fn less_from(a: Seq<char>, b: Seq<char>, i: int) -> bool
    decreases a.len() - i,
{
    if i < 0 || i >= a.len() {
        i >= 0 && i < b.len()
    } else if i >= b.len() {
        false
    } else if a[i] != b[i] {
        a[i] < b[i]
    } else {
        less_from(a, b, i + 1)
    }
}

/// `String`'s `<`: code point order, a proper prefix before the longer string.
pub open spec fn str_less(a: Seq<char>, b: Seq<char>) -> bool {
    less_from(a, b, 0)
}

/// `a < b` for strings.
pub fn less(a: &str, b: &str) -> (r: bool)
    ensures
        r == str_less(a@, b@),
{
    let x = chars_of(a);
    let y = chars_of(b);
    let mut i: usize = 0;
    while i < x.len() && i < y.len()
        invariant
            x@ == a@,
            y@ == b@,
            i <= x.len(),
            i <= y.len(),
            str_less(a@, b@) == less_from(a@, b@, i as int),
        decreases x.len() - i,
    {
        if x[i] != y[i] {
            return x[i] < y[i];
        }
        i = i + 1;
    }
    i < y.len() && i >= x.len()
}

/// No string comes before itself.
pub proof fn lemma_less_irreflexive(a: Seq<char>, i: int)
    requires
        0 <= i,
    ensures
        !less_from(a, a, i),
    decreases a.len() - i,
{
    if i < a.len() {
        lemma_less_irreflexive(a, i + 1);
    }
}

/// Two strings do not each come before the other.
pub proof fn lemma_less_asymmetric(a: Seq<char>, b: Seq<char>, i: int)
    requires
        0 <= i,
    ensures
        !(less_from(a, b, i) && less_from(b, a, i)),
    decreases a.len() - i,
{
    if i < a.len() && i < b.len() && a[i] == b[i] {
        lemma_less_asymmetric(a, b, i + 1);
    }
}

/// Of two different strings, one comes before the other.
pub proof fn lemma_less_total(a: Seq<char>, b: Seq<char>, i: int)
    requires
        0 <= i,
        i <= a.len(),
        i <= b.len(),
        a.subrange(0, i) == b.subrange(0, i),
    ensures
        a != b ==> less_from(a, b, i) || less_from(b, a, i),
    decreases a.len() - i,
{
    if i < a.len() && i < b.len() && a[i] == b[i] {
        assert(a.subrange(0, i + 1) =~= a.subrange(0, i).push(a[i]));
        assert(b.subrange(0, i + 1) =~= b.subrange(0, i).push(b[i]));
        lemma_less_total(a, b, i + 1);
    } else if i == a.len() && i == b.len() {
        assert(a =~= a.subrange(0, i));
        assert(b =~= b.subrange(0, i));
    } else if i < a.len() && i < b.len() {
        assert(a[i] != b[i]);
    }
}

/// The order of strings is transitive.
pub proof fn lemma_less_transitive(a: Seq<char>, b: Seq<char>, c: Seq<char>, i: int)
    requires
        0 <= i,
        less_from(a, b, i),
        less_from(b, c, i),
    ensures
        less_from(a, c, i),
    decreases a.len() - i,
{
    if i < a.len() && i < b.len() && i < c.len() && a[i] == b[i] && b[i] == c[i] {
        lemma_less_transitive(a, b, c, i + 1);
    }
}

} // verus!
