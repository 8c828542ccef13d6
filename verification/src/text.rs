//! Text primitives that the rest of the library is built on.

use vstd::prelude::*;
use vstd::string::*;
use vstd::utf8::*;

verus! {

/// The characters with the Unicode property `White_Space`.
pub open spec fn is_white_space(c: char) -> bool {
    ||| '\u{9}' <= c <= '\u{d}'
    ||| c == ' '
    ||| c == '\u{85}'
    ||| c == '\u{a0}'
    ||| c == '\u{1680}'
    ||| '\u{2000}' <= c <= '\u{200a}'
    ||| c == '\u{2028}'
    ||| c == '\u{2029}'
    ||| c == '\u{202f}'
    ||| c == '\u{205f}'
    ||| c == '\u{3000}'
}

/// `s` without the white space at its two ends.
pub open spec fn trimmed(s: Seq<char>) -> Seq<char>
    decreases s.len(),
{
    if s.len() == 0 {
        s
    } else if is_white_space(s.first()) {
        trimmed(s.drop_first())
    } else if is_white_space(s.last()) {
        trimmed(s.drop_last())
    } else {
        s
    }
}

/// `str::trim` returns the slice without leading and trailing white space,
/// where white space is the Unicode property `White_Space`.
pub assume_specification[ str::trim ](s: &str) -> (r: &str)
    ensures
        r@ == trimmed(s@),
;

/// Whether nothing but white space stands in `s`.
pub open spec fn is_blank(s: Seq<char>) -> bool {
    forall|i: int| 0 <= i < s.len() ==> is_white_space(#[trigger] s[i])
}

/// Trimming leaves nothing exactly when there was nothing but white space.
pub proof fn trimmed_is_empty_when_blank(s: Seq<char>)
    ensures
        (trimmed(s).len() == 0) == is_blank(s),
    decreases s.len(),
{
    if s.len() > 0 {
        if is_white_space(s.first()) {
            trimmed_is_empty_when_blank(s.drop_first());
            assert forall|i: int| is_blank(s.drop_first()) && 0 <= i < s.len() implies is_white_space(
                #[trigger] s[i],
            ) by {
                if i > 0 {
                    assert(s[i] == s.drop_first()[i - 1]);
                }
            }
            assert forall|i: int| is_blank(s) && 0 <= i < s.drop_first().len() implies is_white_space(
                #[trigger] s.drop_first()[i],
            ) by {
                assert(s.drop_first()[i] == s[i + 1]);
            }
        } else {
            assert(!is_white_space(s[0]));
            if is_white_space(s.last()) {
                trimmed_is_empty_when_blank(s.drop_last());
                assert(s.drop_last()[0] == s[0]);
            }
        }
    }
}

/// Whether `s` holds nothing but white space.
pub fn blank(s: &str) -> (r: bool)
    ensures
        r == is_blank(s@),
{
    proof {
        trimmed_is_empty_when_blank(s@);
    }
    s.trim().is_empty()
}

/// What a row of texts holds.
pub open spec fn all_text(s: Seq<String>) -> Seq<Seq<char>> {
    s.map_values(|t: String| t@)
}

/// What a row of words holds.
pub open spec fn all_words(s: Seq<&'static str>) -> Seq<Seq<char>> {
    s.map_values(|t: &'static str| t@)
}

/// Whether two texts are the same.
pub fn same(a: &str, b: &str) -> (r: bool)
    ensures
        r == (a@ == b@),
{
    let x = a.as_bytes();
    let y = b.as_bytes();
    proof {
        encode_utf8_decode_utf8(a@);
        encode_utf8_decode_utf8(b@);
    }
    if x.len() != y.len() {
        return false;
    }
    let mut i: usize = 0;
    while i < x.len()
        invariant
            x@ == encode_utf8(a@),
            y@ == encode_utf8(b@),
            x@.len() == y@.len(),
            i <= x@.len(),
            forall|j: int| 0 <= j < i ==> x@[j] == y@[j],
        decreases x@.len() - i,
    {
        if x[i] != y[i] {
            return false;
        }
        i += 1;
    }
    assert(x@ =~= y@);
    true
}

/// Whether `s` begins with `prefix`.
pub open spec fn has_prefix(s: Seq<char>, prefix: Seq<char>) -> bool {
    prefix.len() <= s.len() && s.take(prefix.len() as int) == prefix
}

/// What follows `prefix` in `s`, if `s` begins with it.
pub fn strip_prefix<'a>(s: &'a str, prefix: &str) -> (r: Option<&'a str>)
    ensures
        has_prefix(s@, prefix@) ==> r is Some && r->0@ == s@.skip(prefix@.len() as int),
        !has_prefix(s@, prefix@) ==> r is None,
{
    let n = prefix.unicode_len();
    let len = s.unicode_len();
    if len < n {
        return None;
    }
    let head = s.substring_char(0, n);
    assert(head@ == s@.take(n as int));
    if same(head, prefix) {
        let rest = s.substring_char(n, len);
        assert(rest@ =~= s@.skip(n as int));
        Some(rest)
    } else {
        None
    }
}

/// Whether `s` begins with `prefix`.
pub fn starts_with(s: &str, prefix: &str) -> (r: bool)
    ensures
        r == has_prefix(s@, prefix@),
{
    strip_prefix(s, prefix).is_some()
}

/// The place of the first `c` in `s`, or the length of `s` if there is none.
pub open spec fn first_place(s: Seq<char>, c: char) -> int
    decreases s.len(),
{
    if s.len() == 0 || s.first() == c {
        0
    } else {
        1 + first_place(s.drop_first(), c)
    }
}

/// `first_place` is the only place with no `c` before it and `c` or the end at it.
pub proof fn first_place_is_first(s: Seq<char>, c: char, k: int)
    requires
        0 <= k <= s.len(),
        forall|i: int| 0 <= i < k ==> s[i] != c,
        k < s.len() ==> s[k] == c,
    ensures
        first_place(s, c) == k,
    decreases k,
{
    if k > 0 {
        let t = s.drop_first();
        assert forall|i: int| 0 <= i < k - 1 implies t[i] != c by {
            assert(t[i] == s[i + 1]);
        }
        first_place_is_first(t, c, k - 1);
    }
}

/// The characters of `s`.
pub fn characters(s: &str) -> (r: Vec<char>)
    ensures
        r@ == s@,
{
    let mut out: Vec<char> = Vec::new();
    for c in iter: s.chars()
        invariant
            out@ == iter.seq().take(iter.index() as int),
    {
        out.push(c);
    }
    assert(out@ =~= s@);
    out
}

/// The part of `s` before the first `c`: all of it if there is none.
pub fn before<'a>(s: &'a str, c: char) -> (r: &'a str)
    ensures
        r@ == s@.take(first_place(s@, c)),
{
    let chars = characters(s);
    let mut k: usize = 0;
    while k < chars.len() && chars[k] != c
        invariant
            chars@ == s@,
            k <= chars@.len(),
            forall|i: int| 0 <= i < k ==> chars@[i] != c,
        decreases chars@.len() - k,
    {
        k += 1;
    }
    proof {
        first_place_is_first(s@, c, k as int);
    }
    let r = s.substring_char(0, k);
    assert(r@ =~= s@.take(k as int));
    r
}

/// The pieces of `s` between the `c`s: one more than there are `c`s.
pub open spec fn pieces(s: Seq<char>, c: char) -> Seq<Seq<char>>
    decreases s.len(),
{
    let k = first_place(s, c);
    if 0 <= k < s.len() {
        seq![s.take(k)] + pieces(s.skip(k + 1), c)
    } else {
        seq![s]
    }
}

/// The pieces of a list separated by commas, trimmed, the blank ones left out.
pub open spec fn list_items(s: Seq<Seq<char>>) -> Seq<Seq<char>>
    decreases s.len(),
{
    if s.len() == 0 {
        seq![]
    } else {
        let rest = list_items(s.drop_first());
        let item = trimmed(s.first());
        if item.len() == 0 {
            rest
        } else {
            seq![item] + rest
        }
    }
}

/// The items of a comma-separated list: trimmed, without the blank ones.
pub fn comma_items(s: &str) -> (r: Vec<String>)
    ensures
        r@.len() == list_items(pieces(s@, ',')).len(),
        forall|i: int| 0 <= i < r@.len() ==> (#[trigger] r@[i])@ == list_items(pieces(s@, ','))[i],
{
    let chars = characters(s);
    let mut out: Vec<String> = Vec::new();
    let mut start: usize = 0;
    let ghost all = list_items(pieces(s@, ','));
    let ghost mut done: Seq<Seq<char>> = seq![];
    assert(s@.skip(0) =~= s@);
    assert(done + all =~= all);
    loop
        invariant_except_break
            chars@ == s@,
            start <= chars@.len(),
            out@.len() == done.len(),
            forall|i: int| 0 <= i < out@.len() ==> (#[trigger] out@[i])@ == done[i],
            done + list_items(pieces(s@.skip(start as int), ',')) == all,
        ensures
            out@.len() == all.len(),
            forall|i: int| 0 <= i < out@.len() ==> (#[trigger] out@[i])@ == all[i],
        decreases chars@.len() - start,
    {
        let mut k: usize = start;
        while k < chars.len() && chars[k] != ','
            invariant
                start <= k <= chars@.len(),
                forall|i: int| start <= i < k ==> chars@[i] != ',',
            decreases chars@.len() - k,
        {
            k += 1;
        }
        let ghost rest = s@.skip(start as int);
        proof {
            assert forall|i: int| 0 <= i < k - start implies rest[i] != ',' by {
                assert(rest[i] == chars@[i + start]);
            }
            first_place_is_first(rest, ',', k - start);
        }
        let piece = s.substring_char(start, k);
        assert(piece@ =~= rest.take(k - start));
        let item = piece.trim();
        let ghost tail = list_items(pieces(s@.skip(k + 1), ','));
        proof {
            if k < chars@.len() {
                assert(rest.skip(k - start + 1) =~= s@.skip(k + 1));
                let all_pieces = pieces(rest, ',');
                assert(all_pieces.drop_first() =~= pieces(s@.skip(k + 1), ','));
                assert(all_pieces.first() == piece@);
            } else {
                assert(piece@ =~= rest);
                assert(pieces(rest, ',').drop_first() =~= seq![]);
                assert(list_items(pieces(rest, ',').drop_first()) =~= seq![]);
            }
        }
        if !item.is_empty() {
            out.push(item.to_owned());
            proof {
                let next = done.push(item@);
                if k < chars@.len() {
                    assert(next + tail =~= done + (seq![item@] + tail));
                } else {
                    assert(next =~= done + (seq![item@] + Seq::<Seq<char>>::empty()));
                }
                done = next;
            }
        } else {
            proof {
                if k >= chars@.len() {
                    assert(done + Seq::<Seq<char>>::empty() =~= done);
                }
            }
        }
        if k >= chars.len() {
            break;
        }
        start = k + 1;
    }
    out
}

/// The decimal digit that stands for `n`.
pub open spec fn digit(n: nat) -> char
    recommends
        n < 10,
{
    (48 + n) as u8 as char
}

/// `n` in decimal digits, without leading zeros.
pub open spec fn decimal(n: nat) -> Seq<char>
    decreases n,
{
    if n < 10 {
        seq![digit(n)]
    } else {
        decimal(n / 10).push(digit(n % 10))
    }
}

fn digit_text(n: u64) -> (r: &'static str)
    requires
        n < 10,
    ensures
        r@ == seq![digit(n as nat)],
{
    proof {
        reveal_strlit("0");
        reveal_strlit("1");
        reveal_strlit("2");
        reveal_strlit("3");
        reveal_strlit("4");
        reveal_strlit("5");
        reveal_strlit("6");
        reveal_strlit("7");
        reveal_strlit("8");
        reveal_strlit("9");
    }
    match n {
        0 => "0",
        1 => "1",
        2 => "2",
        3 => "3",
        4 => "4",
        5 => "5",
        6 => "6",
        7 => "7",
        8 => "8",
        _ => "9",
    }
}

/// `n` written in decimal.
pub fn decimal_text(n: u64) -> (r: String)
    ensures
        r@ == decimal(n as nat),
    decreases n,
{
    if n < 10 {
        digit_text(n).to_owned()
    } else {
        let r = decimal_text(n / 10).concat(digit_text(n % 10));
        assert(r@ =~= decimal(n as nat));
        r
    }
}

/// Whether `c` is a decimal digit.
pub open spec fn is_digit(c: char) -> bool {
    '0' <= c <= '9'
}

/// The number that a row of digits stands for.
pub open spec fn digits_value(s: Seq<char>) -> nat
    decreases s.len(),
{
    if s.len() == 0 {
        0
    } else {
        10 * digits_value(s.drop_last()) + (s.last() as nat - 48) as nat
    }
}

/// `s` without the plus sign that it may begin with.
pub open spec fn after_plus(s: Seq<char>) -> Seq<char> {
    if s.len() > 0 && s.first() == '+' {
        s.drop_first()
    } else {
        s
    }
}

/// The number written in `s`: digits, at least one, after at most one plus sign.
pub open spec fn written_number(s: Seq<char>) -> Option<nat> {
    let digits = after_plus(s);
    if digits.len() > 0 && (forall|i: int| 0 <= i < digits.len() ==> is_digit(#[trigger] digits[i])) {
        Some(digits_value(digits))
    } else {
        None
    }
}

/// The number written in `s`, if there is one that fits in a `usize`.
pub fn parse_usize(s: &str) -> (r: Option<usize>)
    ensures
        r == (match written_number(s@) {
            Some(n) => if n <= usize::MAX {
                Some(n as usize)
            } else {
                None
            },
            None => None,
        }),
{
    let chars = characters(s);
    let plus: usize = if chars.len() > 0 && chars[0] == '+' {
        1
    } else {
        0
    };
    let ghost digits = after_plus(s@);
    assert(digits =~= s@.skip(plus as int));
    if chars.len() == plus {
        return None;
    }
    let mut value: usize = 0;
    let mut fits: bool = true;
    let mut i: usize = plus;
    assert(digits.take(0) =~= Seq::<char>::empty());
    while i < chars.len()
        invariant
            chars@ == s@,
            plus <= i <= chars@.len(),
            digits == after_plus(s@),
            digits == s@.skip(plus as int),
            forall|j: int| 0 <= j < i - plus ==> is_digit(#[trigger] digits[j]),
            fits ==> value == digits_value(digits.take(i - plus)),
            !fits ==> digits_value(digits.take(i - plus)) > usize::MAX,
        decreases chars@.len() - i,
    {
        let c = chars[i];
        assert(c == digits[i - plus]);
        if !(c >= '0' && c <= '9') {
            assert(!is_digit(digits[i - plus]));
            return None;
        }
        let d: usize = (c as u32 - 48) as usize;
        assert(digits.take(i - plus + 1).drop_last() =~= digits.take(i - plus));
        assert(digits.take(i - plus + 1).last() == c);
        if fits {
            if value > usize::MAX / 10 || value * 10 > usize::MAX - d {
                fits = false;
            } else {
                value = value * 10 + d;
            }
        }
        i += 1;
    }
    assert(digits.take(i - plus) =~= digits);
    if fits {
        Some(value)
    } else {
        None
    }
}

/// `c` in lower case if it is an ASCII letter.
pub open spec fn ascii_lower(c: char) -> char {
    if 'A' <= c <= 'Z' {
        (c as u8 + 32) as u8 as char
    } else {
        c
    }
}

/// `s` with its ASCII letters in lower case.
pub open spec fn ascii_lowered(s: Seq<char>) -> Seq<char> {
    s.map_values(|c: char| ascii_lower(c))
}

/// Whether `s` reads `word` once its ASCII letters are in lower case.
pub fn reads(s: &str, word: &str) -> (r: bool)
    ensures
        r == (ascii_lowered(s@) == word@),
{
    let a = characters(s);
    let b = characters(word);
    if a.len() != b.len() {
        return false;
    }
    let mut i: usize = 0;
    while i < a.len()
        invariant
            a@ == s@,
            b@ == word@,
            a@.len() == b@.len(),
            i <= a@.len(),
            forall|j: int| 0 <= j < i ==> ascii_lowered(s@)[j] == word@[j],
        decreases a@.len() - i,
    {
        let c = a[i];
        let low = if c >= 'A' && c <= 'Z' {
            (c as u8 + 32) as char
        } else {
            c
        };
        assert(ascii_lowered(s@)[i as int] == low);
        if low != b[i] {
            return false;
        }
        i += 1;
    }
    assert(ascii_lowered(s@) =~= word@);
    true
}

/// Byte strings in dictionary order: whether `a` comes before `b` or is the same.
pub open spec fn in_order(a: Seq<u8>, b: Seq<u8>) -> bool
    decreases a.len(),
{
    if a.len() == 0 {
        true
    } else if b.len() == 0 {
        false
    } else if a.first() != b.first() {
        a.first() < b.first()
    } else {
        in_order(a.drop_first(), b.drop_first())
    }
}

/// Texts in the order of their UTF-8 bytes.
pub open spec fn text_in_order(a: Seq<char>, b: Seq<char>) -> bool {
    in_order(encode_utf8(a), encode_utf8(b))
}

/// Whether `a` comes before `b` in the order of their UTF-8 bytes, or is the same.
pub fn not_after(a: &str, b: &str) -> (r: bool)
    ensures
        r == text_in_order(a@, b@),
{
    let x = a.as_bytes();
    let y = b.as_bytes();
    let mut i: usize = 0;
    assert(x@.skip(0) =~= x@);
    assert(y@.skip(0) =~= y@);
    while i < x.len() && i < y.len()
        invariant
            x@ == encode_utf8(a@),
            y@ == encode_utf8(b@),
            i <= x@.len(),
            i <= y@.len(),
            in_order(x@, y@) == in_order(x@.skip(i as int), y@.skip(i as int)),
        decreases x@.len() - i,
    {
        let ghost p = x@.skip(i as int);
        let ghost q = y@.skip(i as int);
        assert(p.first() == x@[i as int] && q.first() == y@[i as int]);
        if x[i] != y[i] {
            return x[i] < y[i];
        }
        assert(p.drop_first() =~= x@.skip(i + 1));
        assert(q.drop_first() =~= y@.skip(i + 1));
        i += 1;
    }
    i >= x.len()
}

/// The order of bytes is total.
pub proof fn in_order_is_total(a: Seq<u8>, b: Seq<u8>)
    ensures
        in_order(a, b) || in_order(b, a),
    decreases a.len(),
{
    if a.len() > 0 && b.len() > 0 && a.first() == b.first() {
        in_order_is_total(a.drop_first(), b.drop_first());
    }
}

/// The order of bytes is transitive.
pub proof fn in_order_is_transitive(a: Seq<u8>, b: Seq<u8>, c: Seq<u8>)
    requires
        in_order(a, b),
        in_order(b, c),
    ensures
        in_order(a, c),
    decreases a.len(),
{
    if a.len() > 0 && a.first() == b.first() && b.first() == c.first() {
        in_order_is_transitive(a.drop_first(), b.drop_first(), c.drop_first());
    }
}

/// Two texts that come before each other are the same.
pub proof fn text_in_order_is_antisymmetric(a: Seq<char>, b: Seq<char>)
    requires
        text_in_order(a, b),
        text_in_order(b, a),
    ensures
        a == b,
{
    in_order_is_antisymmetric(encode_utf8(a), encode_utf8(b));
    encode_utf8_decode_utf8(a);
    encode_utf8_decode_utf8(b);
}

proof fn in_order_is_antisymmetric(a: Seq<u8>, b: Seq<u8>)
    requires
        in_order(a, b),
        in_order(b, a),
    ensures
        a == b,
    decreases a.len(),
{
    if a.len() > 0 && b.len() > 0 {
        in_order_is_antisymmetric(a.drop_first(), b.drop_first());
        assert(a =~= seq![a.first()] + a.drop_first());
        assert(b =~= seq![b.first()] + b.drop_first());
    } else {
        assert(a =~= b);
    }
}

/// The first place of a character is where it stands for the first time, or the end.
pub proof fn lemma_first_place(s: Seq<char>, c: char)
    ensures
        0 <= first_place(s, c) <= s.len(),
        first_place(s, c) < s.len() ==> s[first_place(s, c)] == c,
        forall|j: int| 0 <= j < first_place(s, c) ==> #[trigger] s[j] != c,
    decreases s.len(),
{
    if s.len() > 0 && s.first() != c {
        let rest = s.drop_first();
        lemma_first_place(rest, c);
        assert forall|j: int| 0 <= j < first_place(s, c) implies #[trigger] s[j] != c by {
            if j > 0 {
                assert(rest[j - 1] == s[j]);
            }
        }
    }
}

} // verus!
