//! Text as sequences of characters: trimming, numbers and small searches.

use vstd::prelude::*;

verus! {

/// `String::push` appends the given character and changes nothing else.
pub assume_specification[ String::push ](s: &mut String, c: char)
    ensures
        final(s)@ == old(s)@.push(c),
;

/// The characters with the Unicode `White_Space` property.
pub open spec fn is_space(c: char) -> bool {
    ||| '\u{9}' <= c <= '\u{d}'
    ||| c == '\u{20}'
    ||| c == '\u{85}'
    ||| c == '\u{a0}'
    ||| c == '\u{1680}'
    ||| '\u{2000}' <= c <= '\u{200a}'
    ||| c == '\u{2028}'
    ||| c == '\u{2029}'
    ||| c == '\u{202f}'
    ||| c == '\u{205f}'
    ||| c == '\u{3000}'
}

/// Whether a character is white space.
pub fn space(c: char) -> (b: bool)
    ensures
        b == is_space(c),
{
    ('\u{9}' <= c && c <= '\u{d}') || c == '\u{20}' || c == '\u{85}' || c == '\u{a0}' || c
        == '\u{1680}' || ('\u{2000}' <= c && c <= '\u{200a}') || c == '\u{2028}' || c == '\u{2029}'
        || c == '\u{202f}' || c == '\u{205f}' || c == '\u{3000}'
}

/// The characters of a string, in order.
pub fn chars_of(s: &str) -> (v: Vec<char>)
    ensures
        v@ == s@,
{
    let mut v: Vec<char> = Vec::new();
    for c in it: s.chars()
        invariant
            v@ == s@.take(it.index() as int),
            it.seq() == s@,
    {
        v.push(c);
        assert(v@ == s@.take(it.index() as int + 1));
    }
    v
}

/// The string made of the characters `v[from..to]`.
pub fn str_of(v: &Vec<char>, from: usize, to: usize) -> (s: String)
    requires
        from <= to <= v.len(),
    ensures
        s@ == v@.subrange(from as int, to as int),
{
    let mut s = String::new();
    let mut i: usize = from;
    while i < to
        invariant
            from <= i <= to <= v.len(),
            s@ == v@.subrange(from as int, i as int),
        decreases to - i,
    {
        s.push(v[i]);
        i += 1;
        assert(v@.subrange(from as int, i as int) == v@.subrange(from as int, i - 1).push(
            v@[i - 1],
        ));
    }
    s
}

/// The UTF-8 encoding of a text.
pub open spec fn utf8(s: Seq<char>) -> Seq<u8> {
    vstd::utf8::encode_utf8(s)
}

/// The number of bytes of a string in UTF-8.
pub fn byte_len(s: &str) -> (n: usize)
    ensures
        n == utf8(s@).len(),
{
    s.as_bytes().len()
}

/// Leading white space removed.
pub open spec fn trim_start(s: Seq<char>) -> Seq<char>
    decreases s.len(),
{
    if s.len() > 0 && is_space(s[0]) {
        trim_start(s.skip(1))
    } else {
        s
    }
}

/// Trailing white space removed.
pub open spec fn trim_end(s: Seq<char>) -> Seq<char>
    decreases s.len(),
{
    if s.len() > 0 && is_space(s.last()) {
        trim_end(s.drop_last())
    } else {
        s
    }
}

/// White space removed from both ends.
pub open spec fn trimmed(s: Seq<char>) -> Seq<char> {
    trim_end(trim_start(s))
}

/// A copy of the text without leading and trailing white space.
pub fn trim(s: &str) -> (r: String)
    ensures
        r@ == trimmed(s@),
{
    let v = chars_of(s);
    let mut a: usize = 0;
    assert(v@.skip(0) == v@);
    while a < v.len() && space(v[a])
        invariant
            a <= v.len(),
            trim_start(v@) == trim_start(v@.skip(a as int)),
        decreases v.len() - a,
    {
        assert(v@.skip(a as int).skip(1) == v@.skip(a + 1));
        a += 1;
    }
    proof {
        if a == v.len() {
            assert(v@.skip(a as int).len() == 0);
        }
        assert(trim_start(v@) == v@.skip(a as int));
        assert(v@.skip(a as int) == v@.subrange(a as int, v.len() as int));
    }
    let mut b: usize = v.len();
    while b > a && space(v[b - 1])
        invariant
            a <= b <= v.len(),
            trimmed(v@) == trim_end(v@.subrange(a as int, b as int)),
        decreases b,
    {
        assert(v@.subrange(a as int, b as int).drop_last() == v@.subrange(a as int, b - 1));
        b -= 1;
    }
    str_of(&v, a, b)
}

/// A text without white space at its ends is its own trimmed form.
pub proof fn lemma_trimmed_same(s: Seq<char>)
    requires
        s.len() > 0,
        !is_space(s[0]),
        !is_space(s.last()),
    ensures
        trimmed(s) == s,
{
}

/// The decimal digit of a value below ten.
pub open spec fn dec_char(d: int) -> char {
    (48 + d) as char
}

/// Decimal digits of a natural number, without leading zeros.
pub open spec fn dec_nat(n: nat) -> Seq<char>
    decreases n,
{
    if n < 10 {
        seq![dec_char(n as int)]
    } else {
        dec_nat(n / 10).push(dec_char((n % 10) as int))
    }
}

/// Decimal notation has at least one digit and consists of digits.
pub proof fn lemma_dec_nat(n: nat)
    ensures
        dec_nat(n).len() > 0,
        all_digits(dec_nat(n)),
    decreases n,
{
    if n >= 10 {
        lemma_dec_nat(n / 10);
    }
}

/// Decimal notation of an integer.
pub open spec fn dec_int(n: int) -> Seq<char> {
    if n < 0 {
        seq!['-'] + dec_nat((-n) as nat)
    } else {
        dec_nat(n as nat)
    }
}

fn dec_digit(d: u128) -> (c: char)
    requires
        d < 10,
    ensures
        c == dec_char(d as int),
{
    (48u8 + d as u8) as char
}

/// Appends the decimal notation of `n`.
pub fn push_u128(s: &mut String, n: u128)
    ensures
        final(s)@ == old(s)@ + dec_nat(n as nat),
    decreases n,
{
    if n >= 10 {
        push_u128(s, n / 10);
    }
    s.push(dec_digit(n % 10));
    proof {
        if n >= 10 {
            assert(old(s)@ + dec_nat(n as nat / 10).push(dec_char((n % 10) as int)) == (old(s)@
                + dec_nat(n as nat / 10)).push(dec_char((n % 10) as int)));
        } else {
            assert(old(s)@ + seq![dec_char(n as int)] == old(s)@.push(dec_char(n as int)));
        }
    }
}

/// Appends the decimal notation of `n`.
pub fn push_u64(s: &mut String, n: u64)
    ensures
        final(s)@ == old(s)@ + dec_nat(n as nat),
{
    push_u128(s, n as u128);
}

/// The decimal notation of `n`.
pub fn u64_text(n: u64) -> (s: String)
    ensures
        s@ == dec_nat(n as nat),
{
    let mut s = String::new();
    push_u64(&mut s, n);
    assert(Seq::<char>::empty() + dec_nat(n as nat) == dec_nat(n as nat));
    s
}

/// Appends the decimal notation of `n`.
pub fn push_i64(s: &mut String, n: i64)
    ensures
        final(s)@ == old(s)@ + dec_int(n as int),
{
    if n < 0 {
        s.push('-');
        if n == i64::MIN {
            push_u64(s, 9223372036854775808);
        } else {
            push_u64(s, (-n) as u64);
        }
        assert((old(s)@.push('-')) + dec_nat((-n) as nat) == old(s)@ + (seq!['-'] + dec_nat(
            (-n) as nat,
        )));
    } else {
        push_u64(s, n as u64);
    }
}

/// The lower-case hexadecimal digit of a value below sixteen.
pub open spec fn hex_char(d: int) -> char {
    if d < 10 {
        (48 + d) as char
    } else {
        (87 + d) as char
    }
}

/// Lower-case hexadecimal notation of a natural number, without leading zeros.
pub open spec fn hex_nat(n: nat) -> Seq<char>
    decreases n,
{
    if n < 16 {
        seq![hex_char(n as int)]
    } else {
        hex_nat(n / 16).push(hex_char((n % 16) as int))
    }
}

/// Appends the lower-case hexadecimal notation of `n`.
pub fn push_hex(s: &mut String, n: u64)
    ensures
        final(s)@ == old(s)@ + hex_nat(n as nat),
    decreases n,
{
    if n >= 16 {
        push_hex(s, n / 16);
    }
    let d: u64 = n % 16;
    if d < 10 {
        s.push((48u8 + d as u8) as char);
    } else {
        s.push((87u8 + d as u8) as char);
    }
    proof {
        if n >= 16 {
            assert(old(s)@ + hex_nat(n as nat / 16).push(hex_char(d as int)) == (old(s)@ + hex_nat(
                n as nat / 16,
            )).push(hex_char(d as int)));
        } else {
            assert(old(s)@ + seq![hex_char(n as int)] == old(s)@.push(hex_char(n as int)));
        }
    }
}

/// Whether every character is a decimal digit.
pub open spec fn all_digits(s: Seq<char>) -> bool {
    forall|i: int| 0 <= i < s.len() ==> '0' <= #[trigger] s[i] <= '9'
}

/// The value of a string of decimal digits.
pub open spec fn digits_value(s: Seq<char>) -> nat
    decreases s.len(),
{
    if s.len() == 0 {
        0
    } else {
        (10 * digits_value(s.drop_last()) + (s.last() as int - 48)) as nat
    }
}

/// The value of an unsigned decimal literal: an optional `+` and at least one digit.
pub open spec fn nat_literal(s: Seq<char>) -> Option<nat> {
    let body = if s.len() > 0 && s[0] == '+' {
        s.skip(1)
    } else {
        s
    };
    if body.len() > 0 && all_digits(body) {
        Some(digits_value(body))
    } else {
        None
    }
}

/// The value of a decimal literal: an optional sign and at least one digit.
pub open spec fn int_literal(s: Seq<char>) -> Option<int> {
    if s.len() > 0 && s[0] == '-' {
        let body = s.skip(1);
        if body.len() > 0 && all_digits(body) {
            Some(-digits_value(body))
        } else {
            None
        }
    } else {
        match nat_literal(s) {
            Some(n) => Some(n as int),
            None => None,
        }
    }
}

/// The literal's value if it lies between the two bounds.
pub open spec fn within(v: Option<int>, lo: int, hi: int) -> Option<int> {
    match v {
        Some(n) => if lo <= n <= hi {
            Some(n)
        } else {
            None
        },
        None => None,
    }
}

/// Reads the digits `v[from..]`. `None` unless there is at least one and all
/// are digits; the flag tells whether the value exceeds `u128::MAX`.
fn read_digits(v: &Vec<char>, from: usize) -> (r: Option<(u128, bool)>)
    requires
        from <= v.len(),
    ensures
        r is Some <==> (from < v.len() && all_digits(v@.skip(from as int))),
        r matches Some((n, over)) ==> {
            let value = digits_value(v@.skip(from as int));
            if over {
                value > u128::MAX
            } else {
                value == n
            }
        },
{
    if from == v.len() {
        return None;
    }
    let ghost body = v@.skip(from as int);
    let mut i: usize = from;
    let mut n: u128 = 0;
    let mut over: bool = false;
    while i < v.len()
        invariant
            from <= i <= v.len(),
            body == v@.skip(from as int),
            forall|k: int| 0 <= k < i - from ==> '0' <= #[trigger] body[k] <= '9',
            over ==> digits_value(body.take(i - from)) > u128::MAX,
            !over ==> digits_value(body.take(i - from)) == n,
        decreases v.len() - i,
    {
        let c = v[i];
        assert(c == body[i - from]);
        if !('0' <= c && c <= '9') {
            return None;
        }
        let d: u128 = (c as u32 - 48) as u128;
        assert(body.take(i - from + 1).drop_last() == body.take(i - from));
        assert(body.take(i - from + 1).last() == c);
        if !over {
            if n > (u128::MAX - d) / 10 {
                over = true;
                assert(10 * n + d > u128::MAX) by (nonlinear_arith)
                    requires
                        n > (u128::MAX - d) / 10,
                        d <= u128::MAX,
                ;
            } else {
                assert(10 * n + d <= u128::MAX) by (nonlinear_arith)
                    requires
                        n <= (u128::MAX - d) / 10,
                        d <= u128::MAX,
                ;
                n = n * 10 + d;
            }
        }
        i += 1;
    }
    assert(body.take(v.len() - from) == body);
    Some((n, over))
}

/// Parses a signed decimal number.
pub fn parse_i64(s: &str) -> (r: Option<i64>)
    ensures
        match r {
            Some(n) => within(int_literal(s@), i64::MIN as int, i64::MAX as int) == Some(n as int),
            None => within(int_literal(s@), i64::MIN as int, i64::MAX as int) is None,
        },
{
    let v = chars_of(s);
    let negative = v.len() > 0 && v[0] == '-';
    let plus = v.len() > 0 && v[0] == '+';
    let from: usize = if negative || plus {
        1
    } else {
        0
    };
    assert(v@.skip(0) == v@);
    match read_digits(&v, from) {
        None => None,
        Some((n, over)) => {
            if over {
                None
            } else if negative {
                if n < 9223372036854775808 {
                    Some(-(n as i64))
                } else if n == 9223372036854775808 {
                    Some(i64::MIN)
                } else {
                    None
                }
            } else if n <= 9223372036854775807 {
                Some(n as i64)
            } else {
                None
            }
        },
    }
}

/// Parses an unsigned decimal number.
pub fn parse_u128(s: &str) -> (r: Option<u128>)
    ensures
        match r {
            Some(n) => nat_literal(s@) == Some(n as nat),
            None => match nat_literal(s@) {
                Some(n) => n > u128::MAX,
                None => true,
            },
        },
{
    let v = chars_of(s);
    let from: usize = if v.len() > 0 && v[0] == '+' {
        1
    } else {
        0
    };
    assert(v@.skip(0) == v@);
    match read_digits(&v, from) {
        None => None,
        Some((n, over)) => if over {
            None
        } else {
            Some(n)
        },
    }
}

/// The views of a list of strings.
pub open spec fn texts(v: Seq<String>) -> Seq<Seq<char>> {
    v.map_values(|s: String| s@)
}

/// One more string at the end.
pub proof fn lemma_texts_push(v: Seq<String>, x: String)
    ensures
        texts(v.push(x)) == texts(v).push(x@),
{
    assert(texts(v.push(x)) =~= texts(v).push(x@));
}

/// A copy of a list of strings.
pub fn copy_all(v: &Vec<String>) -> (r: Vec<String>)
    ensures
        texts(r@) == texts(v@),
{
    let mut r: Vec<String> = Vec::new();
    let mut k: usize = 0;
    assert(texts(r@) =~= texts(v@).take(0));
    while k < v.len()
        invariant
            k <= v.len(),
            texts(r@) == texts(v@).take(k as int),
        decreases v.len() - k,
    {
        let one = v[k].as_str().to_owned();
        proof {
            lemma_texts_push(r@, one);
            assert(texts(v@).take(k + 1) =~= texts(v@).take(k as int).push(texts(v@)[k as int]));
        }
        r.push(one);
        k += 1;
    }
    assert(texts(v@).take(v.len() as int) =~= texts(v@));
    r
}

/// Whether `s` begins with `prefix`.
pub open spec fn has_prefix(s: Seq<char>, prefix: Seq<char>) -> bool {
    prefix.len() <= s.len() && s.take(prefix.len() as int) == prefix
}

/// Whether the text begins with the prefix.
pub fn starts_with(s: &str, prefix: &str) -> (b: bool)
    ensures
        b == has_prefix(s@, prefix@),
{
    let v = chars_of(s);
    let p = chars_of(prefix);
    if p.len() > v.len() {
        return false;
    }
    let mut i: usize = 0;
    while i < p.len()
        invariant
            i <= p.len() <= v.len(),
            v@ == s@,
            p@ == prefix@,
            forall|k: int| 0 <= k < i ==> v@[k] == p@[k],
        decreases p.len() - i,
    {
        if v[i] != p[i] {
            assert(v@.take(p.len() as int)[i as int] != p@[i as int]);
            return false;
        }
        i += 1;
    }
    assert(v@.take(p.len() as int) == p@);
    true
}

/// Whether two texts are equal.
pub fn same(a: &str, b: &str) -> (r: bool)
    ensures
        r == (a@ == b@),
{
    a.to_owned() == b.to_owned()
}

/// Every occurrence of a character replaced by a text.
pub open spec fn replaced(s: Seq<char>, c: char, with: Seq<char>) -> Seq<char>
    decreases s.len(),
{
    if s.len() == 0 {
        s
    } else if s.last() == c {
        replaced(s.drop_last(), c, with) + with
    } else {
        replaced(s.drop_last(), c, with).push(s.last())
    }
}

/// Nothing is left of the character that is replaced.
pub proof fn lemma_replaced_has_none(s: Seq<char>, c: char, with: Seq<char>)
    requires
        !with.contains(c),
    ensures
        !replaced(s, c, with).contains(c),
    decreases s.len(),
{
    if s.len() > 0 {
        lemma_replaced_has_none(s.drop_last(), c, with);
        let front = replaced(s.drop_last(), c, with);
        let all = replaced(s, c, with);
        assert forall|i: int| 0 <= i < all.len() implies all[i] != c by {
            if i < front.len() {
                assert(front.contains(front[i]));
                assert(all[i] == front[i]);
            } else if s.last() == c {
                assert(with.contains(with[i - front.len()]));
            }
        }
    }
}

/// Where there is nothing to replace, the text stays as it is.
pub proof fn lemma_replaced_same(s: Seq<char>, c: char, with: Seq<char>)
    requires
        forall|i: int| 0 <= i < s.len() ==> s[i] != c,
    ensures
        replaced(s, c, with) == s,
    decreases s.len(),
{
    if s.len() > 0 {
        lemma_replaced_same(s.drop_last(), c, with);
        assert(s.drop_last().push(s.last()) == s);
    }
}

/// A text does not become shorter where something is put for each character that is
/// replaced.
pub proof fn lemma_replaced_longer(s: Seq<char>, c: char, with: Seq<char>)
    requires
        with.len() >= 1,
    ensures
        replaced(s, c, with).len() >= s.len(),
    decreases s.len(),
{
    if s.len() > 0 {
        lemma_replaced_longer(s.drop_last(), c, with);
    }
}

/// No character comes in that is neither in the text nor in what is put.
pub proof fn lemma_replaced_keeps_out(s: Seq<char>, c: char, with: Seq<char>, d: char)
    requires
        !s.contains(d),
        !with.contains(d),
    ensures
        !replaced(s, c, with).contains(d),
    decreases s.len(),
{
    if s.len() > 0 {
        assert(!s.drop_last().contains(d)) by {
            assert forall|i: int| 0 <= i < s.drop_last().len() implies s.drop_last()[i] != d by {
                assert(s[i] != d);
            }
        }
        lemma_replaced_keeps_out(s.drop_last(), c, with, d);
        let front = replaced(s.drop_last(), c, with);
        let all = replaced(s, c, with);
        assert(s.contains(s.last()));
        assert forall|i: int| 0 <= i < all.len() implies all[i] != d by {
            if i < front.len() {
                assert(front.contains(front[i]));
                assert(all[i] == front[i]);
            } else if s.last() == c {
                assert(with.contains(with[i - front.len()]));
            }
        }
    }
}

/// A copy of the text with every `c` replaced by `with`.
pub fn replace(s: &str, c: char, with: &str) -> (r: String)
    ensures
        r@ == replaced(s@, c, with@),
{
    let v = chars_of(s);
    let mut r = String::new();
    let mut i: usize = 0;
    while i < v.len()
        invariant
            i <= v.len(),
            r@ == replaced(v@.take(i as int), c, with@),
        decreases v.len() - i,
    {
        let x = v[i];
        assert(v@.take(i + 1).drop_last() == v@.take(i as int));
        if x == c {
            r.append(with);
        } else {
            r.push(x);
        }
        i += 1;
    }
    assert(v@.take(v.len() as int) == v@);
    r
}

/// The first `n` characters, or all of them.
pub open spec fn head(s: Seq<char>, n: nat) -> Seq<char> {
    if s.len() <= n {
        s
    } else {
        s.take(n as int)
    }
}

/// A copy of the first `n` characters.
pub fn take_chars(s: &str, n: usize) -> (r: String)
    ensures
        r@ == head(s@, n as nat),
{
    let v = chars_of(s);
    assert(v@.subrange(0, v.len() as int) == v@);
    if v.len() <= n {
        str_of(&v, 0, v.len())
    } else {
        str_of(&v, 0, n)
    }
}

/// The position of the first `c`, or the length where there is none.
pub open spec fn first_index(s: Seq<char>, c: char) -> nat
    decreases s.len(),
{
    if s.len() == 0 || s[0] == c {
        0
    } else {
        1 + first_index(s.skip(1), c)
    }
}

proof fn lemma_first_index(s: Seq<char>, c: char, n: int)
    requires
        0 <= n <= s.len(),
        forall|k: int| 0 <= k < n ==> s[k] != c,
        n == s.len() || s[n] == c,
    ensures
        first_index(s, c) == n,
    decreases s.len(),
{
    if n > 0 {
        lemma_first_index(s.skip(1), c, n - 1);
    }
}

/// The first index never exceeds the length.
pub proof fn lemma_first_index_bound(s: Seq<char>, c: char)
    ensures
        first_index(s, c) <= s.len(),
        first_index(s, c) < s.len() ==> s[first_index(s, c) as int] == c,
        forall|k: int| 0 <= k < first_index(s, c) ==> s[k] != c,
    decreases s.len(),
{
    if s.len() > 0 && s[0] != c {
        lemma_first_index_bound(s.skip(1), c);
        assert forall|k: int| 0 <= k < first_index(s, c) implies s[k] != c by {
            if k > 0 {
                assert(s.skip(1)[k - 1] == s[k]);
            }
        }
    }
}

/// The position of the first `c` at or after `from`, or the length.
pub fn find_char(v: &Vec<char>, from: usize, c: char) -> (i: usize)
    requires
        from <= v.len(),
    ensures
        from <= i <= v.len(),
        i - from == first_index(v@.skip(from as int), c),
{
    let mut i: usize = from;
    while i < v.len() && v[i] != c
        invariant
            from <= i <= v.len(),
            forall|k: int| from <= k < i ==> v@[k] != c,
        decreases v.len() - i,
    {
        i += 1;
    }
    proof {
        lemma_first_index(v@.skip(from as int), c, i - from);
    }
    i
}

/// The pieces of a text between the occurrences of a separator.
pub open spec fn split_on(s: Seq<char>, c: char) -> Seq<Seq<char>>
    decreases s.len(),
{
    let n = first_index(s, c);
    if n >= s.len() {
        seq![s]
    } else {
        seq![s.take(n as int)] + split_on(s.skip(n as int + 1), c)
    }
}

/// Splits a text at every occurrence of a character.
pub fn split(s: &str, c: char) -> (r: Vec<String>)
    ensures
        texts(r@) == split_on(s@, c),
{
    let v = chars_of(s);
    let mut r: Vec<String> = Vec::new();
    let mut from: usize = 0;
    assert(v@.skip(0) == v@);
    assert(texts(r@) + split_on(v@, c) == split_on(v@, c));
    loop
        invariant_except_break
            from <= v.len(),
            texts(r@) + split_on(v@.skip(from as int), c) == split_on(v@, c),
        ensures
            texts(r@) == split_on(v@, c),
        decreases v.len() - from,
    {
        let n = find_char(&v, from, c);
        let piece = str_of(&v, from, n);
        let ghost before = texts(r@);
        let ghost rest = v@.skip(from as int);
        assert(rest.take(n - from) == v@.subrange(from as int, n as int));
        r.push(piece);
        assert(texts(r@) == before.push(rest.take(n - from)));
        if n == v.len() {
            assert(rest.take(n - from) == rest);
            assert(before + seq![rest] == before.push(rest));
            break;
        }
        assert(rest.skip(n - from + 1) == v@.skip(n + 1));
        assert(before + (seq![rest.take(n - from)] + split_on(v@.skip(n + 1), c)) == before.push(
            rest.take(n - from),
        ) + split_on(v@.skip(n + 1), c));
        from = n + 1;
    }
    r
}

/// A line without the carriage return that ends it, if any.
pub open spec fn without_cr(s: Seq<char>) -> Seq<char> {
    if s.len() > 0 && s.last() == '\r' {
        s.drop_last()
    } else {
        s
    }
}

/// The lines of a text. A line ends with a line feed, which is not part of it,
/// nor is a carriage return right before it; the last line feed starts no line.
pub open spec fn lines_of(s: Seq<char>) -> Seq<Seq<char>>
    decreases s.len(),
{
    let n = first_index(s, '\n');
    if s.len() == 0 {
        Seq::empty()
    } else if n >= s.len() {
        seq![s]
    } else {
        seq![without_cr(s.take(n as int))] + lines_of(s.skip(n as int + 1))
    }
}

/// The lines of a text.
pub fn lines(s: &str) -> (r: Vec<String>)
    ensures
        texts(r@) == lines_of(s@),
{
    let v = chars_of(s);
    let mut r: Vec<String> = Vec::new();
    let mut from: usize = 0;
    assert(v@.skip(0) == v@);
    assert(texts(r@) + lines_of(v@) == lines_of(v@));
    while from < v.len()
        invariant
            from <= v.len(),
            texts(r@) + lines_of(v@.skip(from as int)) == lines_of(v@),
        decreases v.len() - from,
    {
        let n = find_char(&v, from, '\n');
        let ghost before = texts(r@);
        let ghost rest = v@.skip(from as int);
        assert(rest.take(n - from) == v@.subrange(from as int, n as int));
        if n == v.len() {
            assert(rest.take(n - from) == rest);
            r.push(str_of(&v, from, n));
            assert(texts(r@) == before.push(rest));
            assert(before + seq![rest] == before.push(rest));
            from = n;
            assert(v@.skip(from as int).len() == 0);
            assert(texts(r@) + lines_of(v@.skip(from as int)) == texts(r@));
        } else {
            let to: usize = if n > from && v[n - 1] == '\r' {
                n - 1
            } else {
                n
            };
            let ghost line = without_cr(rest.take(n - from));
            assert(line == v@.subrange(from as int, to as int));
            r.push(str_of(&v, from, to));
            assert(texts(r@) == before.push(line));
            assert(rest.skip(n - from + 1) == v@.skip(n + 1));
            from = n + 1;
            assert(before + (seq![line] + lines_of(v@.skip(from as int))) == before.push(line)
                + lines_of(v@.skip(from as int)));
        }
    }
    assert(v@.skip(from as int).len() == 0);
    assert(texts(r@) + lines_of(v@.skip(from as int)) == texts(r@));
    r
}

/// The number of characters before the first white space.
pub open spec fn word_len(s: Seq<char>) -> nat
    decreases s.len(),
{
    if s.len() == 0 || is_space(s[0]) {
        0
    } else {
        1 + word_len(s.skip(1))
    }
}

proof fn lemma_word_len(s: Seq<char>, n: int)
    requires
        0 <= n <= s.len(),
        forall|k: int| 0 <= k < n ==> !is_space(#[trigger] s[k]),
        n == s.len() || is_space(s[n]),
    ensures
        word_len(s) == n,
    decreases s.len(),
{
    if n > 0 {
        assert(!is_space(s[0]));
        lemma_word_len(s.skip(1), n - 1);
    }
}

/// A word ends within its text, and a text that starts with no white space has one.
pub proof fn lemma_word_len_bound(s: Seq<char>)
    ensures
        word_len(s) <= s.len(),
        s.len() > 0 && !is_space(s[0]) ==> word_len(s) > 0,
    decreases s.len(),
{
    if s.len() > 0 && !is_space(s[0]) {
        lemma_word_len_bound(s.skip(1));
    }
}

/// Trimming the start never lengthens a text and leaves no white space in front.
pub proof fn lemma_trim_start_len(s: Seq<char>)
    ensures
        trim_start(s).len() <= s.len(),
        trim_start(s).len() > 0 ==> !is_space(trim_start(s)[0]),
    decreases s.len(),
{
    if s.len() > 0 && is_space(s[0]) {
        lemma_trim_start_len(s.skip(1));
    }
}

/// The words of a text: its longest pieces without white space.
pub open spec fn words_of(s: Seq<char>) -> Seq<Seq<char>>
    decreases s.len(),
{
    let t = trim_start(s);
    let n = word_len(t);
    if t.len() == 0 {
        Seq::empty()
    } else {
        proof {
            lemma_trim_start_len(s);
            lemma_word_len_bound(t);
        }
        seq![t.take(n as int)] + words_of(t.skip(n as int))
    }
}

/// The words of a text.
pub fn words(s: &str) -> (r: Vec<String>)
    ensures
        texts(r@) == words_of(s@),
{
    let v = chars_of(s);
    let mut r: Vec<String> = Vec::new();
    let mut from: usize = 0;
    assert(v@.skip(0) == v@);
    assert(texts(r@) + words_of(v@) == words_of(v@));
    while from < v.len()
        invariant
            from <= v.len(),
            texts(r@) + words_of(v@.skip(from as int)) == words_of(v@),
        decreases v.len() - from,
    {
        if space(v[from]) {
            assert(v@.skip(from as int).skip(1) == v@.skip(from + 1));
            from += 1;
        } else {
            let mut n: usize = from;
            while n < v.len() && !space(v[n])
                invariant
                    from <= n <= v.len(),
                    forall|k: int| from <= k < n ==> !is_space(#[trigger] v@[k]),
                decreases v.len() - n,
            {
                n += 1;
            }
            let ghost before = texts(r@);
            let ghost rest = v@.skip(from as int);
            proof {
                lemma_word_len(rest, n - from);
                assert(rest.take(n - from) == v@.subrange(from as int, n as int));
                assert(rest.skip(n - from) == v@.skip(n as int));
                assert(!is_space(v@[from as int]));
            }
            r.push(str_of(&v, from, n));
            assert(texts(r@) == before.push(rest.take(n - from)));
            assert(before + (seq![rest.take(n - from)] + words_of(v@.skip(n as int)))
                == before.push(rest.take(n - from)) + words_of(v@.skip(n as int)));
            from = n;
        }
    }
    assert(v@.skip(from as int).len() == 0);
    assert(texts(r@) + words_of(v@.skip(from as int)) == texts(r@));
    r
}

/// An ASCII capital as its small letter, any other character as it is.
pub open spec fn folded(c: char) -> char {
    if 'A' <= c <= 'Z' {
        (c as u32 + 32) as char
    } else {
        c
    }
}

/// An ASCII capital as its small letter, any other character as it is.
pub fn fold(c: char) -> (r: char)
    ensures
        r == folded(c),
{
    if 'A' <= c && c <= 'Z' {
        (c as u8 + 32) as char
    } else {
        c
    }
}

/// Whether `needle` stands in `s` at position `at`, without regard to ASCII case.
pub open spec fn found_at(s: Seq<char>, needle: Seq<char>, at: int) -> bool {
    &&& 0 <= at
    &&& at + needle.len() <= s.len()
    &&& forall|k: int|
        0 <= k < needle.len() ==> folded(#[trigger] needle[k]) == folded(s[at + k])
}

/// Whether `needle` stands somewhere in `s`, without regard to ASCII case.
pub open spec fn found_in(s: Seq<char>, needle: Seq<char>) -> bool {
    exists|at: int| found_at(s, needle, at)
}

/// Whether the text begins with the prefix, without regard to ASCII case.
pub fn starts_folded(s: &str, prefix: &str) -> (b: bool)
    ensures
        b == found_at(s@, prefix@, 0),
{
    let v = chars_of(s);
    let p = chars_of(prefix);
    if p.len() > v.len() {
        return false;
    }
    let mut k: usize = 0;
    while k < p.len()
        invariant
            k <= p.len() <= v.len(),
            v@ == s@,
            p@ == prefix@,
            forall|x: int| 0 <= x < k ==> folded(#[trigger] p@[x]) == folded(v@[0 + x]),
        decreases p.len() - k,
    {
        if fold(v[k]) != fold(p[k]) {
            assert(folded(p@[k as int]) != folded(v@[0 + k]));
            return false;
        }
        k += 1;
    }
    true
}

/// Whether the needle stands somewhere in the text, without regard to ASCII case.
pub fn contains_folded(s: &str, needle: &str) -> (b: bool)
    ensures
        b == found_in(s@, needle@),
{
    let v = chars_of(s);
    let n = chars_of(needle);
    if n.len() > v.len() {
        return false;
    }
    let mut at: usize = 0;
    while at <= v.len() - n.len()
        invariant
            v@ == s@,
            n@ == needle@,
            n.len() <= v.len(),
            at <= v.len() - n.len() + 1,
            forall|a: int| 0 <= a < at ==> !found_at(v@, n@, a),
        decreases v.len() - n.len() + 1 - at,
    {
        let mut k: usize = 0;
        while k < n.len() && fold(v[at + k]) == fold(n[k])
            invariant
                n.len() <= v.len(),
                at <= v.len() - n.len(),
                k <= n.len(),
                forall|x: int| 0 <= x < k ==> folded(#[trigger] n@[x]) == folded(v@[at + x]),
            decreases n.len() - k,
        {
            k += 1;
        }
        if k == n.len() {
            assert(found_at(v@, n@, at as int));
            return true;
        }
        assert(folded(n@[k as int]) != folded(v@[at + k]));
        if at == usize::MAX {
            return false;
        }
        at += 1;
    }
    false
}

/// Reading the decimal notation of a natural number gives the number back.
pub proof fn lemma_dec_nat_value(n: nat)
    ensures
        digits_value(dec_nat(n)) == n,
        nat_literal(dec_nat(n)) == Some(n),
    decreases n,
{
    lemma_dec_nat(n);
    assert('0' <= dec_nat(n)[0] <= '9');
    if n >= 10 {
        lemma_dec_nat_value(n / 10);
        assert(dec_nat(n).drop_last() == dec_nat(n / 10));
        assert(dec_nat(n).last() as int == 48 + n % 10);
    } else {
        assert(dec_nat(n).drop_last().len() == 0);
        assert(digits_value(dec_nat(n).drop_last()) == 0);
        assert(dec_nat(n).last() as int == 48 + n);
    }
}

/// Reading the decimal notation of an integer gives the integer back.
pub proof fn lemma_dec_int_value(n: int)
    ensures
        int_literal(dec_int(n)) == Some(n),
        dec_int(n).len() > 0,
        forall|i: int| 0 <= i < dec_int(n).len() ==> !is_space(#[trigger] dec_int(n)[i]),
{
    let m = if n < 0 {
        (-n) as nat
    } else {
        n as nat
    };
    lemma_dec_nat(m);
    lemma_dec_nat_value(m);
    assert('0' <= dec_nat(m)[0] <= '9');
    if n < 0 {
        assert(dec_int(n).skip(1) == dec_nat(m));
    }
    assert forall|i: int| 0 <= i < dec_int(n).len() implies !is_space(#[trigger] dec_int(n)[i]) by {
        if n < 0 {
            if i > 0 {
                assert('0' <= dec_nat(m)[i - 1] <= '9');
            }
        } else {
            assert('0' <= dec_nat(m)[i] <= '9');
        }
    }
}

/// Two words with one blank between them.
pub proof fn lemma_two_words(a: Seq<char>, b: Seq<char>)
    requires
        a.len() > 0,
        b.len() > 0,
        forall|i: int| 0 <= i < a.len() ==> !is_space(#[trigger] a[i]),
        forall|i: int| 0 <= i < b.len() ==> !is_space(#[trigger] b[i]),
    ensures
        words_of(a.push(' ') + b) == seq![a, b],
{
    let s = a.push(' ') + b;
    assert(s[0] == a[0]);
    assert(!is_space(a[0]));
    assert(trim_start(s) == s);
    assert forall|k: int| 0 <= k < a.len() implies !is_space(#[trigger] s[k]) by {
        assert(s[k] == a[k]);
    }
    assert(s[a.len() as int] == ' ');
    lemma_word_len(s, a.len() as int);
    assert(s.take(a.len() as int) == a);
    let rest = s.skip(a.len() as int);
    assert(rest == seq![' '] + b);
    assert(rest.skip(1) == b);
    assert(!is_space(b[0]));
    assert(trim_start(b) == b);
    assert(trim_start(rest) == trim_start(rest.skip(1)));
    lemma_word_len(b, b.len() as int);
    assert(b.take(b.len() as int) == b);
    assert(b.skip(b.len() as int).len() == 0);
    assert(words_of(b.skip(b.len() as int)) == Seq::<Seq<char>>::empty());
    assert(words_of(rest) == seq![b] + Seq::<Seq<char>>::empty());
    assert(words_of(s) == seq![a] + words_of(rest));
    assert(seq![a] + seq![b] == seq![a, b]);
}

/// The text before the first separator is the first piece.
pub proof fn lemma_split_head(a: Seq<char>, rest: Seq<char>, c: char)
    requires
        !a.contains(c),
    ensures
        split_on(a.push(c) + rest, c) == seq![a] + split_on(rest, c),
{
    let s = a.push(c) + rest;
    assert forall|k: int| 0 <= k < a.len() implies s[k] != c by {
        assert(s[k] == a[k]);
    }
    assert(s[a.len() as int] == c);
    lemma_first_index(s, c, a.len() as int);
    assert(s.take(a.len() as int) == a);
    assert(s.skip(a.len() as int + 1) == rest);
}

/// A text without the character is its only piece.
pub proof fn lemma_split_whole(s: Seq<char>, c: char)
    requires
        !s.contains(c),
    ensures
        split_on(s, c) == seq![s],
{
    lemma_first_index_bound(s, c);
    let n = first_index(s, c) as int;
    if n < s.len() {
        assert(s.contains(s[n]));
    }
}

/// The first piece of a text that begins with `a`, where `a` ends the text or a
/// separator follows.
pub proof fn lemma_split_first(s: Seq<char>, a: Seq<char>, c: char)
    requires
        !a.contains(c),
        has_prefix(s, a),
        s.len() == a.len() || s[a.len() as int] == c,
    ensures
        split_on(s, c).len() > 0,
        split_on(s, c)[0] == a,
{
    assert forall|k: int| 0 <= k < a.len() implies s[k] != c by {
        assert(s[k] == a[k]);
    }
    if s.len() > a.len() {
        lemma_first_index(s, c, a.len() as int);
        assert(s.take(a.len() as int) == a);
    } else {
        assert(s == a);
        lemma_first_index(s, c, s.len() as int);
    }
}

/// Trimming the end leaves a beginning of the text, with everything up to a
/// character that is no white space in it.
pub proof fn lemma_trim_end(s: Seq<char>, k: int)
    requires
        0 <= k < s.len(),
        !is_space(s[k]),
    ensures
        k < trim_end(s).len() <= s.len(),
        trim_end(s) == s.take(trim_end(s).len() as int),
        is_space(s.last()) ==> trim_end(s).len() < s.len(),
    decreases s.len(),
{
    if is_space(s.last()) {
        lemma_trim_end(s.drop_last(), k);
        let n = trim_end(s).len() as int;
        assert(s.drop_last().take(n) == s.take(n));
    } else {
        assert(s.take(s.len() as int) == s);
    }
}

/// A word in front of nothing or of white space is the first word.
pub proof fn lemma_words_head(a: Seq<char>, rest: Seq<char>)
    requires
        a.len() > 0,
        forall|i: int| 0 <= i < a.len() ==> !is_space(#[trigger] a[i]),
        rest.len() == 0 || is_space(rest[0]),
    ensures
        words_of(a + rest) == seq![a] + words_of(rest),
{
    let s = a + rest;
    assert(s[0] == a[0] && !is_space(a[0]));
    assert(trim_start(s) == s);
    assert forall|k: int| 0 <= k < a.len() implies !is_space(#[trigger] s[k]) by {
        assert(s[k] == a[k]);
    }
    lemma_word_len(s, a.len() as int);
    assert(s.take(a.len() as int) == a);
    assert(s.skip(a.len() as int) == rest);
}

/// White space in front of a text adds no word.
pub proof fn lemma_words_after_space(s: Seq<char>)
    requires
        s.len() > 0,
        is_space(s[0]),
    ensures
        words_of(s) == words_of(s.skip(1)),
{
    assert(trim_start(s) == trim_start(s.skip(1)));
}

proof fn lemma_trim_start_cut(s: Seq<char>) -> (a: int)
    ensures
        0 <= a <= s.len(),
        trim_start(s) == s.skip(a),
        forall|i: int| 0 <= i < a ==> is_space(#[trigger] s[i]),
    decreases s.len(),
{
    if s.len() > 0 && is_space(s[0]) {
        let b = lemma_trim_start_cut(s.skip(1));
        assert(s.skip(1).skip(b) == s.skip(b + 1));
        assert forall|i: int| 0 <= i < b + 1 implies is_space(#[trigger] s[i]) by {
            if i > 0 {
                assert(s.skip(1)[i - 1] == s[i]);
            }
        }
        b + 1
    } else {
        assert(s.skip(0) == s);
        0
    }
}

proof fn lemma_trim_end_cut(s: Seq<char>) -> (b: int)
    ensures
        0 <= b <= s.len(),
        trim_end(s) == s.take(b),
        forall|i: int| b <= i < s.len() ==> is_space(#[trigger] s[i]),
        b > 0 ==> !is_space(s[b - 1]),
    decreases s.len(),
{
    if s.len() > 0 && is_space(s.last()) {
        let b = lemma_trim_end_cut(s.drop_last());
        assert(s.drop_last().take(b) == s.take(b));
        assert forall|i: int| b <= i < s.len() implies is_space(#[trigger] s[i]) by {
            if i < s.len() - 1 {
                assert(s.drop_last()[i] == s[i]);
            }
        }
        b
    } else {
        assert(s.take(s.len() as int) == s);
        s.len() as int
    }
}

/// Trimming takes white space from the ends and nothing else: what is left stands
/// in the text as it is, and begins and ends with no white space.
pub proof fn law_trimming_cuts_the_ends_only(s: Seq<char>)
    ensures
        exists|a: int, b: int|
            {
                &&& 0 <= a <= b <= s.len()
                &&& trimmed(s) == #[trigger] s.subrange(a, b)
                &&& forall|i: int| 0 <= i < a || b <= i < s.len() ==> is_space(#[trigger] s[i])
            },
        trimmed(s).len() > 0 ==> !is_space(trimmed(s)[0]) && !is_space(trimmed(s).last()),
{
    let a = lemma_trim_start_cut(s);
    lemma_trim_start_len(s);
    let t = trim_start(s);
    let n = lemma_trim_end_cut(t);
    assert(trimmed(s) == s.subrange(a, a + n));
    assert forall|i: int| 0 <= i < a || a + n <= i < s.len() implies is_space(#[trigger] s[i]) by {
        if i >= a {
            assert(t[i - a] == s[i]);
        }
    }
}

/// A text keeps everything between its ends: with white space put around it, it is
/// what trimming gives back.
pub proof fn law_trimming_undoes_padding(before: Seq<char>, t: Seq<char>, after: Seq<char>)
    requires
        t.len() > 0,
        !is_space(t[0]),
        !is_space(t.last()),
        forall|i: int| 0 <= i < before.len() ==> is_space(#[trigger] before[i]),
        forall|i: int| 0 <= i < after.len() ==> is_space(#[trigger] after[i]),
    ensures
        trimmed(before + t + after) == t,
{
    let s = before + t + after;
    let p = before.len() as int;
    law_trimming_cuts_the_ends_only(s);
    let (a, b) = choose|a: int, b: int|
        {
            &&& 0 <= a <= b <= s.len()
            &&& trimmed(s) == #[trigger] s.subrange(a, b)
            &&& forall|i: int| 0 <= i < a || b <= i < s.len() ==> is_space(#[trigger] s[i])
        };
    assert(s[p] == t[0]);
    assert(s[p + t.len() - 1] == t.last());
    if a < p {
        assert(trimmed(s)[0] == before[a]);
    }
    if b > p + t.len() {
        assert(trimmed(s).last() == s[b - 1]);
        assert(s[b - 1] == after[b - 1 - p - t.len()]);
    }
    assert(s.subrange(p, p + t.len()) == t);
}

/// A replacement goes character by character: the one that is replaced becomes the
/// given text, every other stays.
pub proof fn law_replacing_goes_by_characters(a: Seq<char>, b: Seq<char>, c: char, with: Seq<char>)
    ensures
        replaced(a + b, c, with) == replaced(a, c, with) + replaced(b, c, with),
        replaced(seq![c], c, with) == with,
        forall|x: char| x != c ==> #[trigger] replaced(seq![x], c, with) == seq![x],
        replaced(Seq::empty(), c, with).len() == 0,
    decreases b.len(),
{
    reveal_with_fuel(replaced, 2);
    assert(seq![c].drop_last() == Seq::<char>::empty());
    assert(replaced(seq![c], c, with) == with);
    assert forall|x: char| x != c implies #[trigger] replaced(seq![x], c, with) == seq![x] by {
        assert(seq![x].drop_last() == Seq::<char>::empty());
    }
    if b.len() == 0 {
        assert(a + b == a);
        assert(replaced(a, c, with) + replaced(b, c, with) == replaced(a, c, with));
    } else {
        law_replacing_goes_by_characters(a, b.drop_last(), c, with);
        assert((a + b).drop_last() == a + b.drop_last());
        assert(replaced(a + b, c, with) == replaced(a, c, with) + replaced(b, c, with));
    }
}

/// The first characters of a text are a beginning of it, as long as asked for or
/// the whole text.
pub proof fn law_head_is_a_beginning(s: Seq<char>, n: nat)
    ensures
        head(s, n).len() == if s.len() < n {
            s.len()
        } else {
            n
        },
        forall|i: int| 0 <= i < head(s, n).len() ==> #[trigger] head(s, n)[i] == s[i],
{
}

/// A text begins with a prefix where something follows the prefix, if only nothing.
pub proof fn law_prefix_is_in_front(s: Seq<char>, prefix: Seq<char>, rest: Seq<char>)
    ensures
        has_prefix(prefix + rest, prefix),
        has_prefix(s, prefix) ==> s == prefix + s.skip(prefix.len() as int),
{
    assert((prefix + rest).take(prefix.len() as int) == prefix);
    if has_prefix(s, prefix) {
        assert(s == s.take(prefix.len() as int) + s.skip(prefix.len() as int));
    }
}

/// Pieces with a separator between them.
pub open spec fn rejoined(v: Seq<Seq<char>>, c: char) -> Seq<char>
    decreases v.len(),
{
    if v.len() == 0 {
        Seq::empty()
    } else if v.len() == 1 {
        v[0]
    } else {
        v[0].push(c) + rejoined(v.skip(1), c)
    }
}

/// Splitting loses nothing: the pieces hold no separator, and put together with
/// separators between them they are the text.
pub proof fn law_splitting_loses_nothing(s: Seq<char>, c: char)
    ensures
        split_on(s, c).len() > 0,
        rejoined(split_on(s, c), c) == s,
        forall|i: int| 0 <= i < split_on(s, c).len() ==> !(#[trigger] split_on(s, c)[i]).contains(c),
    decreases s.len(),
{
    lemma_first_index_bound(s, c);
    let n = first_index(s, c) as int;
    let v = split_on(s, c);
    if n < s.len() {
        let rest = s.skip(n + 1);
        law_splitting_loses_nothing(rest, c);
        assert(v.skip(1) == split_on(rest, c));
        assert(s == s.take(n).push(c) + rest);
        assert(!s.take(n).contains(c));
        assert forall|i: int| 0 <= i < v.len() implies !(#[trigger] v[i]).contains(c) by {
            if i > 0 {
                assert(v[i] == split_on(rest, c)[i - 1]);
            }
        }
    } else {
        assert(!s.contains(c));
    }
}

/// Lines are what stands between line feeds, less one carriage return before a line
/// feed. Nothing behind the last line feed is no line.
pub proof fn law_lines_stand_between_line_feeds(s: Seq<char>)
    ensures
        ({
            let p = split_on(s, '\n');
            let v = lines_of(s);
            let last = p.len() - 1;
            &&& p.len() > 0
            &&& v.len() == if p[last].len() == 0 {
                last
            } else {
                last + 1
            }
            &&& forall|i: int|
                0 <= i < v.len() ==> #[trigger] v[i] == if i < last && p[i].len() > 0
                    && p[i].last() == '\r' {
                    p[i].drop_last()
                } else {
                    p[i]
                }
        }),
    decreases s.len(),
{
    lemma_first_index_bound(s, '\n');
    let n = first_index(s, '\n') as int;
    let p = split_on(s, '\n');
    let v = lines_of(s);
    if n < s.len() {
        let rest = s.skip(n + 1);
        law_lines_stand_between_line_feeds(rest);
        let q = split_on(rest, '\n');
        let w = lines_of(rest);
        assert(p == seq![s.take(n)] + q);
        assert(v == seq![without_cr(s.take(n))] + w);
        assert(p[p.len() - 1] == q[q.len() - 1]);
        assert forall|i: int| 0 <= i < v.len() implies #[trigger] v[i] == if i < p.len() - 1
            && p[i].len() > 0 && p[i].last() == '\r' {
            p[i].drop_last()
        } else {
            p[i]
        } by {
            if i > 0 {
                assert(v[i] == w[i - 1]);
                assert(p[i] == q[i - 1]);
            }
        }
    }
}

/// White space parts words and adds none; a text without any is one word.
pub proof fn law_words_stand_between_white_space(a: Seq<char>, c: char, b: Seq<char>)
    requires
        is_space(c),
    ensures
        words_of(a.push(c) + b) == words_of(a) + words_of(b),
        words_of(Seq::empty()).len() == 0,
        a.len() > 0 && (forall|i: int| 0 <= i < a.len() ==> !is_space(#[trigger] a[i])) ==> words_of(
            a,
        ) == seq![a],
    decreases a.len(),
{
    assert(words_of(Seq::empty()) == Seq::<Seq<char>>::empty());
    let s = a.push(c) + b;
    if a.len() == 0 {
        assert(s[0] == c);
        lemma_words_after_space(s);
        assert(s.skip(1) == b);
        assert(words_of(a) + words_of(b) == words_of(b));
    } else if is_space(a[0]) {
        lemma_words_after_space(s);
        lemma_words_after_space(a);
        assert(s.skip(1) == a.skip(1).push(c) + b);
        law_words_stand_between_white_space(a.skip(1), c, b);
    } else {
        lemma_word_len_bound(a);
        let n = lemma_word_cut(a);
        let w = a.take(n);
        let rest = a.skip(n);
        assert(a == w + rest);
        assert(s == w + (rest.push(c) + b));
        assert((rest.push(c) + b)[0] == if n < a.len() {
            a[n]
        } else {
            c
        });
        lemma_words_head(w, rest);
        lemma_words_head(w, rest.push(c) + b);
        law_words_stand_between_white_space(rest, c, b);
        assert(seq![w] + (words_of(rest) + words_of(b)) == seq![w] + words_of(rest) + words_of(b));
        if forall|i: int| 0 <= i < a.len() ==> !is_space(#[trigger] a[i]) {
            if n < a.len() {
                assert(!is_space(a[n]));
            }
            assert(w == a);
            assert(rest.len() == 0);
            assert(words_of(rest) == Seq::<Seq<char>>::empty());
            assert(words_of(a) == seq![a]);
        }
    }
}

proof fn lemma_word_cut(s: Seq<char>) -> (n: int)
    requires
        s.len() > 0,
        !is_space(s[0]),
    ensures
        0 < n <= s.len(),
        forall|i: int| 0 <= i < n ==> !is_space(#[trigger] s.take(n)[i]),
        n == s.len() || is_space(s[n]),
    decreases s.len(),
{
    if s.len() == 1 || is_space(s[1]) {
        1
    } else {
        let m = lemma_word_cut(s.skip(1));
        assert forall|i: int| 0 <= i < m + 1 implies !is_space(#[trigger] s.take(m + 1)[i]) by {
            if i > 0 {
                assert(s.skip(1).take(m)[i - 1] == s[i]);
            }
        }
        m + 1
    }
}

/// Two characters count as the same letter where they are equal or the small and the
/// capital form of one ASCII letter.
pub proof fn law_folding_joins_the_two_cases(a: char, b: char)
    ensures
        folded(a) == folded(b) <==> {
            ||| a == b
            ||| 'A' <= a <= 'Z' && b as int == a as int + 32
            ||| 'A' <= b <= 'Z' && a as int == b as int + 32
        },
{
}

/// A text is found wherever it stands, and only where it stands.
pub proof fn law_found_where_it_stands(
    a: Seq<char>,
    needle: Seq<char>,
    b: Seq<char>,
    s: Seq<char>,
)
    ensures
        found_in(a + needle + b, needle),
        found_in(s, needle) ==> exists|at: int|
            {
                let piece = #[trigger] s.subrange(at, at + needle.len());
                &&& 0 <= at <= s.len() - needle.len()
                &&& forall|k: int|
                    0 <= k < needle.len() ==> folded(#[trigger] piece[k]) == folded(needle[k])
            },
{
    let t = a + needle + b;
    assert forall|k: int| 0 <= k < needle.len() implies folded(#[trigger] needle[k]) == folded(
        t[a.len() + k],
    ) by {
        assert(t[a.len() + k] == needle[k]);
    }
    assert(found_at(t, needle, a.len() as int));
    if found_in(s, needle) {
        let at = choose|at: int| found_at(s, needle, at);
        let piece = s.subrange(at, at + needle.len());
        assert forall|k: int| 0 <= k < needle.len() implies folded(#[trigger] piece[k]) == folded(
            needle[k],
        ) by {
            assert(folded(needle[k]) == folded(s[at + k]));
        }
    }
}

/// Decimal notation is that of one number only, has no zero in front of it, and a
/// sign or zeros in front do not change what is read.
pub proof fn law_decimal_notation(m: int, n: int, k: nat)
    ensures
        dec_int(m) == dec_int(n) ==> m == n,
        k > 0 ==> dec_nat(k)[0] != '0',
        int_literal(seq!['+'] + dec_nat(k)) == Some(k as int),
        nat_literal(seq!['0'] + dec_nat(k)) == Some(k),
        int_literal(seq!['-'] + dec_nat(k)) == Some(-(k as int)),
{
    lemma_dec_int_value(m);
    lemma_dec_int_value(n);
    lemma_dec_nat(k);
    lemma_dec_nat_value(k);
    lemma_first_digit(k);
    let d = dec_nat(k);
    assert((seq!['+'] + d).skip(1) == d);
    assert((seq!['-'] + d).skip(1) == d);
    let z = seq!['0'] + d;
    lemma_leading_zero(d);
    assert forall|i: int| 0 <= i < z.len() implies '0' <= #[trigger] z[i] <= '9' by {
        if i > 0 {
            assert(z[i] == d[i - 1]);
        }
    }
}

proof fn lemma_first_digit(n: nat)
    ensures
        dec_nat(n).len() > 0,
        n > 0 ==> dec_nat(n)[0] != '0',
    decreases n,
{
    if n >= 10 {
        lemma_first_digit(n / 10);
        assert(dec_nat(n)[0] == dec_nat(n / 10)[0]);
    } else {
        assert(dec_nat(n)[0] as int == 48 + n);
    }
}

proof fn lemma_leading_zero(d: Seq<char>)
    ensures
        digits_value(seq!['0'] + d) == digits_value(d),
    decreases d.len(),
{
    let z = seq!['0'] + d;
    if d.len() == 0 {
        assert(z.drop_last() == Seq::<char>::empty());
        reveal_with_fuel(digits_value, 2);
    } else {
        lemma_leading_zero(d.drop_last());
        assert(z.drop_last() == seq!['0'] + d.drop_last());
    }
}

/// Hexadecimal notation is that of one number only, and consists of hexadecimal
/// digits.
pub proof fn law_hexadecimal_notation(m: nat, n: nat)
    ensures
        hex_nat(m) == hex_nat(n) ==> m == n,
        hex_nat(m).len() > 0,
        forall|i: int|
            0 <= i < hex_nat(m).len() ==> ('0' <= #[trigger] hex_nat(m)[i] <= '9' || 'a'
                <= hex_nat(m)[i] <= 'f'),
    decreases m,
{
    lemma_hex_digit(m);
    lemma_hex_digit(n);
    if m >= 16 {
        law_hexadecimal_notation(m / 16, n / 16);
        assert forall|i: int| 0 <= i < hex_nat(m).len() implies ('0' <= #[trigger] hex_nat(m)[i]
            <= '9' || 'a' <= hex_nat(m)[i] <= 'f') by {
            if i < hex_nat(m).len() - 1 {
                assert(hex_nat(m)[i] == hex_nat(m / 16)[i]);
            }
        }
    }
    if hex_nat(m) == hex_nat(n) {
        assert(hex_nat(m).last() == hex_nat(n).last());
        if m >= 16 && n >= 16 {
            assert(hex_nat(m).drop_last() == hex_nat(m / 16));
            assert(hex_nat(n).drop_last() == hex_nat(n / 16));
        }
    }
}

proof fn lemma_hex_digit(n: nat)
    ensures
        hex_nat(n).len() > 0,
        n >= 16 <==> hex_nat(n).len() > 1,
        hex_nat(n).last() == hex_char((n % 16) as int),
        forall|a: int, b: int|
            0 <= a < 16 && 0 <= b < 16 && #[trigger] hex_char(a) == #[trigger] hex_char(b) ==> a
                == b,
    decreases n,
{
    if n >= 16 {
        lemma_hex_digit(n / 16);
    }
    assert forall|a: int, b: int|
        0 <= a < 16 && 0 <= b < 16 && #[trigger] hex_char(a) == #[trigger] hex_char(b) implies a
        == b by {
        assert(hex_char(a) as int == if a < 10 {
            48 + a
        } else {
            87 + a
        });
        assert(hex_char(b) as int == if b < 10 {
            48 + b
        } else {
            87 + b
        });
    }
}

/// Splitting two texts put together splits each of them; only the last piece of the
/// first and the first piece of the second become one.
pub proof fn law_splitting_goes_by_parts(a: Seq<char>, b: Seq<char>, c: char)
    ensures
        split_on(a + b, c) == split_on(a, c).drop_last().push(
            split_on(a, c).last() + split_on(b, c)[0],
        ) + split_on(b, c).skip(1),
    decreases a.len(),
{
    let n = first_index(a, c) as int;
    lemma_first_index_bound(a, c);
    law_splitting_loses_nothing(a, c);
    law_splitting_loses_nothing(b, c);
    let w = split_on(b, c);
    if n < a.len() {
        let rest = a.skip(n + 1);
        assert(!a.take(n).contains(c));
        assert(a + b == a.take(n).push(c) + (rest + b));
        lemma_split_head(a.take(n), rest + b, c);
        law_splitting_goes_by_parts(rest, b, c);
        law_splitting_loses_nothing(rest, c);
        let v = split_on(rest, c);
        assert(split_on(a, c) == seq![a.take(n)] + v);
        assert(split_on(a, c).drop_last() == seq![a.take(n)] + v.drop_last());
        assert(split_on(a, c).last() == v.last());
        assert(split_on(a + b, c) == split_on(a, c).drop_last().push(split_on(a, c).last() + w[0])
            + w.skip(1));
    } else {
        assert(!a.contains(c));
        assert(split_on(a, c) == seq![a]);
        let m = first_index(b, c) as int;
        lemma_first_index_bound(b, c);
        if m < b.len() {
            let rest = b.skip(m + 1);
            let h = a + b.take(m);
            assert(!h.contains(c)) by {
                assert forall|i: int| 0 <= i < h.len() implies h[i] != c by {
                    if i < a.len() {
                        assert(a.contains(a[i]));
                    } else {
                        assert(h[i] == b[i - a.len()]);
                    }
                }
            }
            assert(a + b == h.push(c) + rest);
            lemma_split_head(h, rest, c);
            assert(w.skip(1) == split_on(rest, c));
            assert(split_on(a + b, c) == split_on(a, c).drop_last().push(
                split_on(a, c).last() + w[0],
            ) + w.skip(1));
        } else {
            assert(w == seq![b]);
            assert(!(a + b).contains(c)) by {
                assert forall|i: int| 0 <= i < (a + b).len() implies (a + b)[i] != c by {
                    if i < a.len() {
                        assert(a.contains(a[i]));
                    } else {
                        assert((a + b)[i] == b[i - a.len()]);
                    }
                }
            }
            lemma_split_whole(a + b, c);
            assert(split_on(a + b, c) == split_on(a, c).drop_last().push(
                split_on(a, c).last() + w[0],
            ) + w.skip(1));
        }
    }
}

/// No line holds a line feed.
pub proof fn lemma_lines_hold_no_line_feed(s: Seq<char>, i: int)
    requires
        0 <= i < lines_of(s).len(),
    ensures
        !lines_of(s)[i].contains('\n'),
{
    law_lines_stand_between_line_feeds(s);
    law_splitting_loses_nothing(s, '\n');
    let p = split_on(s, '\n')[i];
    let l = lines_of(s)[i];
    if l.contains('\n') {
        let k = choose|k: int| 0 <= k < l.len() && l[k] == '\n';
        assert(p[k] == '\n');
        assert(p.contains('\n'));
    }
}

/// White space is a tab, a line feed and what follows it up to the carriage return, the
/// blank, and the other spaces and separators of Unicode.
pub proof fn law_white_space(c: char)
    ensures
        is_space(c) <==> {
            let n = c as int;
            ||| 0x9 <= n <= 0xd || n == 0x20 || n == 0x85 || n == 0xa0 || n == 0x1680
            ||| 0x2000 <= n <= 0x200a || n == 0x2028 || n == 0x2029
            ||| n == 0x202f || n == 0x205f || n == 0x3000
        },
{
}

/// A character replaced by another stays in its place.
pub proof fn law_replacing_by_one_keeps_places(s: Seq<char>, c: char, with: Seq<char>)
    requires
        with.len() == 1,
    ensures
        replaced(s, c, with).len() == s.len(),
        forall|i: int|
            0 <= i < s.len() ==> #[trigger] replaced(s, c, with)[i] == if s[i] == c {
                with[0]
            } else {
                s[i]
            },
    decreases s.len(),
{
    if s.len() > 0 {
        law_replacing_by_one_keeps_places(s.drop_last(), c, with);
        let front = replaced(s.drop_last(), c, with);
        let all = replaced(s, c, with);
        assert forall|i: int| 0 <= i < s.len() implies #[trigger] all[i] == if s[i] == c {
            with[0]
        } else {
            s[i]
        } by {
            if i < s.len() - 1 {
                assert(all[i] == front[i]);
            }
        }
    }
}

/// A literal is a sign or none and digits, at least one, and its value goes digit by
/// digit.
pub proof fn law_literals_are_made_of_digits(s: Seq<char>, d: char)
    ensures
        int_literal(s) is Some <==> {
            let from = if s.len() > 0 && (s[0] == '-' || s[0] == '+') {
                1int
            } else {
                0
            };
            s.len() > from && forall|i: int| from <= i < s.len() ==> '0' <= #[trigger] s[i] <= '9'
        },
        nat_literal(s) is Some <==> int_literal(s) is Some && s[0] != '-',
        nat_literal(s) is Some ==> int_literal(s) == Some(nat_literal(s)->0 as int),
        '0' <= d <= '9' && nat_literal(s) is Some ==> nat_literal(s.push(d)) == Some(
            (10 * nat_literal(s)->0 + (d as int - '0' as int)) as nat,
        ),
        '0' <= d <= '9' ==> nat_literal(seq![d]) == Some((d as int - '0' as int) as nat),
{
    let signed = s.len() > 0 && (s[0] == '-' || s[0] == '+');
    let from = if signed {
        1int
    } else {
        0
    };
    let body = s.skip(from);
    assert(s.skip(0) == s);
    assert(all_digits(body) <==> forall|i: int|
        from <= i < s.len() ==> '0' <= #[trigger] s[i] <= '9') by {
        if all_digits(body) {
            assert forall|i: int| from <= i < s.len() implies '0' <= #[trigger] s[i] <= '9' by {
                assert(s[i] == body[i - from]);
            }
        }
        if forall|i: int| from <= i < s.len() ==> '0' <= #[trigger] s[i] <= '9' {
            assert forall|i: int| 0 <= i < body.len() implies '0' <= #[trigger] body[i] <= '9' by {
                assert(s[i + from] == body[i]);
            }
        }
    }
    if '0' <= d <= '9' {
        assert(seq![d].skip(0) == seq![d]);
        assert(seq![d].drop_last() == Seq::<char>::empty());
        reveal_with_fuel(digits_value, 2);
        if nat_literal(s) is Some {
            let t = s.push(d);
            assert(t[0] == s[0]);
            assert(t.skip(from) == body.push(d));
            assert(body.push(d).drop_last() == body);
        }
    }
}

/// What contracts speak of a list of strings is what the strings hold.
pub proof fn law_texts_are_the_strings(v: Seq<String>, i: int)
    ensures
        texts(v).len() == v.len(),
        0 <= i < v.len() ==> texts(v)[i] == v[i]@,
{
}

} // verus!
