//! Text helpers: what the rest of the library reads out of strings and builds into them.
//!
//! A string is modelled by the sequence of its characters.

use vstd::prelude::*;
use vstd::string::*;

verus! {

/// `String::push` appends the character at the end.
pub assume_specification[ std::string::String::push ](s: &mut std::string::String, c: char)
    ensures
        final(s)@ == old(s)@.push(c),
;

/// The model of an optional string.
pub open spec fn opt_text(o: Option<String>) -> Option<Seq<char>> {
    match o {
        Some(s) => Some(s@),
        None => None,
    }
}

/// The characters of `s`.
pub fn to_chars(s: &str) -> (r: Vec<char>)
    ensures
        r@ == s@,
{
    let mut out: Vec<char> = Vec::new();
    for c in it: s.chars()
        invariant
            out@ == it.seq().take(it.index() as int),
            it.seq() == s@,
    {
        out.push(c);
    }
    out
}

/// The string made of the characters `from..to` of `chars`.
pub fn slice_text(chars: &Vec<char>, from: usize, to: usize) -> (r: String)
    requires
        from <= to <= chars@.len(),
    ensures
        r@ == chars@.subrange(from as int, to as int),
{
    let mut out: String = String::new();
    let mut i: usize = from;
    while i < to
        invariant
            from <= i <= to <= chars@.len(),
            out@ == chars@.subrange(from as int, i as int),
        decreases to - i,
    {
        out.push(chars[i]);
        i = i + 1;
    }
    out
}

/// Whether `s` begins with `prefix`.
pub open spec fn has_prefix(s: Seq<char>, prefix: Seq<char>) -> bool {
    prefix.len() <= s.len() && s.subrange(0, prefix.len() as int) == prefix
}

/// Whether `s` ends with `suffix`.
pub open spec fn has_suffix(s: Seq<char>, suffix: Seq<char>) -> bool {
    suffix.len() <= s.len() && s.subrange(s.len() - suffix.len(), s.len() as int) == suffix
}

fn same_chars(a: &Vec<char>, from: usize, b: &Vec<char>) -> (r: bool)
    requires
        from + b@.len() <= a@.len(),
    ensures
        r == (a@.subrange(from as int, from + b@.len()) == b@),
{
    let n: usize = a.len();
    let mut i: usize = 0;
    while i < b.len()
        invariant
            i <= b@.len(),
            from + b@.len() <= a@.len(),
            a@.len() == n,
            a@.subrange(from as int, from + i) == b@.subrange(0, i as int),
        decreases b@.len() - i,
    {
        if a[from + i] != b[i] {
            assert(a@.subrange(from as int, from + b@.len())[i as int] != b@[i as int]);
            return false;
        }
        assert(a@.subrange(from as int, from + i + 1) =~= a@.subrange(from as int, from + i).push(
            a@[from + i],
        ));
        assert(b@.subrange(0, i + 1) =~= b@.subrange(0, i as int).push(b@[i as int]));
        i = i + 1;
    }
    assert(b@.subrange(0, i as int) =~= b@);
    true
}

/// Whether `s` begins with `prefix`.
pub fn starts_with(s: &str, prefix: &str) -> (r: bool)
    ensures
        r == has_prefix(s@, prefix@),
{
    let a: Vec<char> = to_chars(s);
    let b: Vec<char> = to_chars(prefix);
    b.len() <= a.len() && same_chars(&a, 0, &b)
}

/// Whether `s` ends with `suffix`.
pub fn ends_with(s: &str, suffix: &str) -> (r: bool)
    ensures
        r == has_suffix(s@, suffix@),
{
    let a: Vec<char> = to_chars(s);
    let b: Vec<char> = to_chars(suffix);
    b.len() <= a.len() && same_chars(&a, a.len() - b.len(), &b)
}

/// Whether two strings hold the same characters.
pub fn same_text(a: &str, b: &str) -> (r: bool)
    ensures
        r == (a@ == b@),
{
    let x: Vec<char> = to_chars(a);
    let y: Vec<char> = to_chars(b);
    if x.len() != y.len() {
        return false;
    }
    assert(x@.subrange(0, y@.len() as int) =~= x@);
    same_chars(&x, 0, &y)
}

/// The characters with Unicode's `White_Space` property.
pub open spec fn is_space(c: char) -> bool {
    ||| 0x9 <= c as int <= 0xd
    ||| c as int == 0x20
    ||| c as int == 0x85
    ||| c as int == 0xa0
    ||| c as int == 0x1680
    ||| 0x2000 <= c as int <= 0x200a
    ||| c as int == 0x2028
    ||| c as int == 0x2029
    ||| c as int == 0x202f
    ||| c as int == 0x205f
    ||| c as int == 0x3000
}

/// Whether `c` has Unicode's `White_Space` property.
pub fn whitespace(c: char) -> (r: bool)
    ensures
        r == is_space(c),
{
    let n: u32 = c as u32;
    (0x9 <= n && n <= 0xd) || n == 0x20 || n == 0x85 || n == 0xa0 || n == 0x1680 || (0x2000 <= n && n
        <= 0x200a) || n == 0x2028 || n == 0x2029 || n == 0x202f || n == 0x205f || n == 0x3000
}

/// `s` without its longest leading run of characters that satisfy `p`.
pub open spec fn drop_leading(s: Seq<char>, p: spec_fn(char) -> bool) -> Seq<char>
    decreases s.len(),
{
    if s.len() > 0 && p(s[0]) {
        drop_leading(s.subrange(1, s.len() as int), p)
    } else {
        s
    }
}

/// `s` without its longest trailing run of characters that satisfy `p`.
pub open spec fn drop_trailing(s: Seq<char>, p: spec_fn(char) -> bool) -> Seq<char>
    decreases s.len(),
{
    if s.len() > 0 && p(s.last()) {
        drop_trailing(s.drop_last(), p)
    } else {
        s
    }
}

/// The predicate that holds of white space.
pub open spec fn space() -> spec_fn(char) -> bool {
    |c: char| is_space(c)
}

/// The predicate that holds of the character `x` alone.
pub open spec fn only(x: char) -> spec_fn(char) -> bool {
    |c: char| c == x
}

/// `s` without white space at its ends.
pub open spec fn trimmed(s: Seq<char>) -> Seq<char> {
    drop_trailing(drop_leading(s, space()), space())
}

/// `s` without the character `x` at its start.
pub open spec fn without_leading(s: Seq<char>, x: char) -> Seq<char> {
    drop_leading(s, only(x))
}

/// `s` without the character `x` at its end.
pub open spec fn without_trailing(s: Seq<char>, x: char) -> Seq<char> {
    drop_trailing(s, only(x))
}

/// `s` without white space at its ends.
pub fn trim(s: &str) -> (r: String)
    ensures
        r@ == trimmed(s@),
{
    let chars: Vec<char> = to_chars(s);
    let ghost p = space();
    let mut from: usize = 0;
    assert(chars@.subrange(0, chars@.len() as int) =~= chars@);
    while from < chars.len() && whitespace(chars[from])
        invariant
            from <= chars@.len(),
            p == space(),
            drop_leading(chars@, p) == drop_leading(
                chars@.subrange(from as int, chars@.len() as int),
                p,
            ),
        decreases chars@.len() - from,
    {
        assert(chars@.subrange(from as int, chars@.len() as int).subrange(
            1,
            chars@.len() - from,
        ) =~= chars@.subrange(from + 1, chars@.len() as int));
        from = from + 1;
    }
    let ghost rest = chars@.subrange(from as int, chars@.len() as int);
    assert(drop_leading(chars@, p) == rest);
    let mut to: usize = chars.len();
    while from < to && whitespace(chars[to - 1])
        invariant
            from <= to <= chars@.len(),
            p == space(),
            drop_trailing(rest, p) == drop_trailing(chars@.subrange(from as int, to as int), p),
        decreases to,
    {
        assert(chars@.subrange(from as int, to as int).drop_last() =~= chars@.subrange(
            from as int,
            to - 1,
        ));
        to = to - 1;
    }
    slice_text(&chars, from, to)
}

/// Whether a text is nothing but white space.
pub fn is_blank(s: &str) -> (r: bool)
    ensures
        r == (trimmed(s@).len() == 0),
{
    let t: String = trim(s);
    t.as_str().unicode_len() == 0
}

/// `s` without the character `x` at its start.
pub fn trim_leading(s: &str, x: char) -> (r: String)
    ensures
        r@ == without_leading(s@, x),
{
    let chars: Vec<char> = to_chars(s);
    let ghost p = only(x);
    let mut from: usize = 0;
    assert(chars@.subrange(0, chars@.len() as int) =~= chars@);
    while from < chars.len() && chars[from] == x
        invariant
            from <= chars@.len(),
            p == only(x),
            drop_leading(chars@, p) == drop_leading(
                chars@.subrange(from as int, chars@.len() as int),
                p,
            ),
        decreases chars@.len() - from,
    {
        assert(chars@.subrange(from as int, chars@.len() as int).subrange(
            1,
            chars@.len() - from,
        ) =~= chars@.subrange(from + 1, chars@.len() as int));
        from = from + 1;
    }
    slice_text(&chars, from, chars.len())
}

/// `s` without the character `x` at its end.
pub fn trim_trailing(s: &str, x: char) -> (r: String)
    ensures
        r@ == without_trailing(s@, x),
{
    let chars: Vec<char> = to_chars(s);
    let ghost p = only(x);
    let mut to: usize = chars.len();
    assert(chars@.subrange(0, to as int) =~= chars@);
    while 0 < to && chars[to - 1] == x
        invariant
            to <= chars@.len(),
            p == only(x),
            drop_trailing(chars@, p) == drop_trailing(chars@.subrange(0, to as int), p),
        decreases to,
    {
        assert(chars@.subrange(0, to as int).drop_last() =~= chars@.subrange(0, to - 1));
        to = to - 1;
    }
    slice_text(&chars, 0, to)
}

/// The part of `s` before the first `x`, or all of `s` where there is none.
pub open spec fn before_first(s: Seq<char>, x: char) -> Seq<char>
    decreases s.len(),
{
    if s.len() == 0 || s[0] == x {
        Seq::empty()
    } else {
        seq![s[0]] + before_first(s.subrange(1, s.len() as int), x)
    }
}

/// The part before the first `x` is where a text begins, and has no `x`.
pub proof fn before_first_is_before(s: Seq<char>, x: char)
    ensures
        !before_first(s, x).contains(x),
        has_prefix(s, before_first(s, x)),
    decreases s.len(),
{
    if s.len() > 0 && s[0] != x {
        let rest = s.subrange(1, s.len() as int);
        before_first_is_before(rest, x);
        let part = before_first(s, x);
        assert forall|i: int| 0 <= i < part.len() implies part[i] != x && part[i] == s[i] by {
            if i > 0 {
                assert(part[i] == before_first(rest, x)[i - 1]);
                assert(has_prefix(rest, before_first(rest, x)));
                assert(rest.subrange(0, before_first(rest, x).len() as int)[i - 1] == rest[i - 1]);
            }
        }
        assert(s.subrange(0, part.len() as int) =~= part);
    } else {
        assert(s.subrange(0, 0) =~= Seq::<char>::empty());
    }
}

proof fn lemma_before_first(s: Seq<char>, x: char, n: int)
    requires
        0 <= n <= s.len(),
        forall|i: int| 0 <= i < n ==> s[i] != x,
        n < s.len() ==> s[n] == x,
    ensures
        before_first(s, x) == s.subrange(0, n),
    decreases s.len(),
{
    if n > 0 {
        let t = s.subrange(1, s.len() as int);
        lemma_before_first(t, x, n - 1);
        assert(s.subrange(0, n) =~= seq![s[0]] + t.subrange(0, n - 1));
    } else {
        assert(s.subrange(0, 0) =~= Seq::empty());
    }
}

/// The part of `s` before the first `x`, or all of `s` where there is none.
pub fn text_before(s: &str, x: char) -> (r: String)
    ensures
        r@ == before_first(s@, x),
{
    let chars: Vec<char> = to_chars(s);
    let mut n: usize = 0;
    while n < chars.len() && chars[n] != x
        invariant
            n <= chars@.len(),
            forall|i: int| 0 <= i < n ==> chars@[i] != x,
        decreases chars@.len() - n,
    {
        n = n + 1;
    }
    proof {
        lemma_before_first(chars@, x, n as int);
    }
    slice_text(&chars, 0, n)
}

/// An ASCII capital as its small letter, every other character as it is.
pub open spec fn lower_char(c: char) -> char {
    if 'A' <= c <= 'Z' {
        ((c as u32 + 32) as u32) as char
    } else {
        c
    }
}

/// `s` with its ASCII capitals as small letters.
pub open spec fn lower(s: Seq<char>) -> Seq<char> {
    s.map_values(|c: char| lower_char(c))
}

/// `s` with its ASCII capitals as small letters.
pub fn ascii_lower(s: &str) -> (r: String)
    ensures
        r@ == lower(s@),
{
    let chars: Vec<char> = to_chars(s);
    let mut out: String = String::new();
    let mut i: usize = 0;
    while i < chars.len()
        invariant
            i <= chars@.len(),
            out@ == lower(chars@.subrange(0, i as int)),
        decreases chars@.len() - i,
    {
        let c: char = chars[i];
        if 'A' <= c && c <= 'Z' {
            let b: u8 = c as u8;
            out.push((b + 32) as char);
        } else {
            out.push(c);
        }
        i = i + 1;
        assert(lower(chars@.subrange(0, i as int)) =~= lower(chars@.subrange(0, i - 1)).push(
            lower_char(c),
        ));
    }
    assert(chars@.subrange(0, i as int) =~= chars@);
    out
}

/// The decimal digit for `d`.
pub open spec fn digit(d: int) -> char {
    (('0' as int + d) as u32) as char
}

/// `n` in decimal notation.
pub open spec fn decimal(n: nat) -> Seq<char>
    decreases n,
{
    if n < 10 {
        seq![digit(n as int)]
    } else {
        decimal(n / 10).push(digit((n % 10) as int))
    }
}

/// `n` in decimal notation, with a leading `-` where it is negative.
pub open spec fn signed_decimal(n: int) -> Seq<char> {
    if n < 0 {
        seq!['-'] + decimal((-n) as nat)
    } else {
        decimal(n as nat)
    }
}

/// `n` in decimal notation.
pub fn u64_text(n: u64) -> (r: String)
    ensures
        r@ == decimal(n as nat),
    decreases n,
{
    let mut out: String = if n < 10 {
        String::new()
    } else {
        u64_text(n / 10)
    };
    let d: u8 = (n % 10) as u8;
    out.push((48u8 + d) as char);
    assert(out@ =~= decimal(n as nat));
    out
}

/// `n` in decimal notation.
pub fn i64_text(n: i64) -> (r: String)
    ensures
        r@ == signed_decimal(n as int),
{
    if n >= 0 {
        return u64_text(n as u64);
    }
    let mut out: String = String::new();
    out.push('-');
    let magnitude: u64 = if n == i64::MIN {
        0x8000_0000_0000_0000u64
    } else {
        (-n) as u64
    };
    out.append(u64_text(magnitude).as_str());
    out
}

/// Decimal notation tells numbers apart and is never empty.
pub proof fn decimal_is_injective(a: nat, b: nat)
    ensures
        decimal(a).len() > 0,
        decimal(a) == decimal(b) ==> a == b,
        forall|i: int| 0 <= i < decimal(a).len() ==> '0' <= #[trigger] decimal(a)[i] <= '9',
    decreases a + b,
{
    if a >= 10 {
        decimal_is_injective(a / 10, if b >= 10 {
            b / 10
        } else {
            0
        });
    }
    if decimal(a) == decimal(b) {
        assert(decimal(a).last() == decimal(b).last());
        if a >= 10 {
            if b >= 10 {
                assert(decimal(a / 10) =~= decimal(a).drop_last());
                assert(decimal(b / 10) =~= decimal(b).drop_last());
            } else {
                assert(decimal(a).len() == decimal(a / 10).len() + 1);
                assert(false);
            }
        } else if b >= 10 {
            decimal_is_injective(b / 10, a);
            assert(decimal(b).len() == decimal(b / 10).len() + 1);
            assert(false);
        }
    }
}

proof fn lemma_signed_digits(a: int)
    ensures
        signed_decimal(a).len() > 0,
        forall|i: int|
            0 <= i < signed_decimal(a).len() ==> signed_decimal(a)[i] == '-' || '0'
                <= #[trigger] signed_decimal(a)[i] <= '9',
        a < 0 <==> signed_decimal(a)[0] == '-',
{
    let n: nat = if a < 0 {
        (-a) as nat
    } else {
        a as nat
    };
    decimal_is_injective(n, n);
    assert('0' <= decimal(n)[0] <= '9');
}

/// Decimal notation of numbers with a sign tells them apart.
pub proof fn signed_decimal_is_injective(a: int, b: int)
    requires
        signed_decimal(a) == signed_decimal(b),
    ensures
        a == b,
{
    lemma_signed_digits(a);
    lemma_signed_digits(b);
    if a < 0 {
        let x = signed_decimal(a);
        let y = signed_decimal(b);
        assert(x.subrange(1, x.len() as int) =~= decimal((-a) as nat));
        assert(y.subrange(1, y.len() as int) =~= decimal((-b) as nat));
        decimal_is_injective((-a) as nat, (-b) as nat);
    } else {
        decimal_is_injective(a as nat, b as nat);
    }
}

/// A number and a text with a separator between them tell which number and which text they are,
/// where the separator occurs in no number.
pub proof fn number_and_text_tell_apart(a: int, b: int, sep: char, s: Seq<char>, t: Seq<char>)
    requires
        sep != '-',
        !('0' <= sep <= '9'),
        signed_decimal(a) + seq![sep] + s == signed_decimal(b) + seq![sep] + t,
    ensures
        a == b,
        s == t,
{
    let x = signed_decimal(a);
    let y = signed_decimal(b);
    let whole = x + seq![sep] + s;
    lemma_signed_digits(a);
    lemma_signed_digits(b);
    assert(whole[x.len() as int] == sep);
    assert(whole[y.len() as int] == sep);
    if x.len() < y.len() {
        assert(whole[x.len() as int] == y[x.len() as int]);
    } else if y.len() < x.len() {
        assert(whole[y.len() as int] == x[y.len() as int]);
    }
    assert(x =~= whole.subrange(0, x.len() as int));
    assert(y =~= whole.subrange(0, y.len() as int));
    signed_decimal_is_injective(a, b);
    assert(s =~= whole.subrange(x.len() as int + 1, whole.len() as int));
    assert(t =~= whole.subrange(x.len() as int + 1, whole.len() as int));
}

/// Whether `a` sorts strictly before `b`, character by character.
pub open spec fn text_lt(a: Seq<char>, b: Seq<char>) -> bool
    decreases a.len(),
{
    if b.len() == 0 {
        false
    } else if a.len() == 0 {
        true
    } else if a[0] != b[0] {
        a[0] < b[0]
    } else {
        text_lt(a.subrange(1, a.len() as int), b.subrange(1, b.len() as int))
    }
}

/// Texts are totally ordered.
pub proof fn text_order_is_total(a: Seq<char>, b: Seq<char>)
    ensures
        !text_lt(a, a),
        text_lt(a, b) ==> !text_lt(b, a),
        text_lt(a, b) || text_lt(b, a) || a == b,
    decreases a.len(),
{
    if a.len() > 0 && b.len() > 0 && a[0] == b[0] {
        let x = a.subrange(1, a.len() as int);
        let y = b.subrange(1, b.len() as int);
        text_order_is_total(x, y);
        if x == y {
            assert(a =~= seq![a[0]] + x);
            assert(b =~= seq![b[0]] + y);
        }
    } else if a.len() == 0 && b.len() == 0 {
        assert(a =~= b);
    }
    if a.len() > 0 {
        text_order_is_total(a.subrange(1, a.len() as int), a.subrange(1, a.len() as int));
    }
}

/// The order of texts is transitive.
pub proof fn text_order_is_transitive(a: Seq<char>, b: Seq<char>, c: Seq<char>)
    requires
        text_lt(a, b),
        text_lt(b, c),
    ensures
        text_lt(a, c),
    decreases a.len(),
{
    if a.len() > 0 && a[0] == b[0] && b[0] == c[0] {
        text_order_is_transitive(
            a.subrange(1, a.len() as int),
            b.subrange(1, b.len() as int),
            c.subrange(1, c.len() as int),
        );
    }
}

/// Whether `a` sorts strictly before `b`, character by character.
pub fn text_less(a: &str, b: &str) -> (r: bool)
    ensures
        r == text_lt(a@, b@),
{
    let x: Vec<char> = to_chars(a);
    let y: Vec<char> = to_chars(b);
    let mut i: usize = 0;
    proof {
        assert(x@.subrange(0, x@.len() as int) =~= x@);
        assert(y@.subrange(0, y@.len() as int) =~= y@);
    }
    while i < x.len() && i < y.len() && x[i] == y[i]
        invariant
            i <= x@.len(),
            i <= y@.len(),
            text_lt(x@, y@) == text_lt(
                x@.subrange(i as int, x@.len() as int),
                y@.subrange(i as int, y@.len() as int),
            ),
        decreases x@.len() - i,
    {
        proof {
            assert(x@.subrange(i as int, x@.len() as int).subrange(1, x@.len() - i)
                =~= x@.subrange(i + 1, x@.len() as int));
            assert(y@.subrange(i as int, y@.len() as int).subrange(1, y@.len() - i)
                =~= y@.subrange(i + 1, y@.len() as int));
        }
        i = i + 1;
    }
    if i == y.len() {
        false
    } else if i == x.len() {
        true
    } else {
        let p: char = x[i];
        let q: char = y[i];
        p < q
    }
}

/// `s` with `with` in the place of each occurrence of `pattern`, from the left.
pub open spec fn replaced(s: Seq<char>, pattern: Seq<char>, with: Seq<char>) -> Seq<char>
    decreases s.len(),
{
    if s.len() == 0 || pattern.len() == 0 {
        s
    } else if has_prefix(s, pattern) {
        with + replaced(s.subrange(pattern.len() as int, s.len() as int), pattern, with)
    } else {
        seq![s[0]] + replaced(s.subrange(1, s.len() as int), pattern, with)
    }
}

/// `s` with `with` in the place of each occurrence of `pattern`, from the left.
pub fn replace_text(s: &str, pattern: &str, with: &str) -> (r: String)
    requires
        pattern@.len() > 0,
    ensures
        r@ == replaced(s@, pattern@, with@),
{
    let chars: Vec<char> = to_chars(s);
    let pat: Vec<char> = to_chars(pattern);
    let n: usize = chars.len();
    let mut out: String = String::new();
    let mut i: usize = 0;
    assert(chars@.subrange(0, n as int) =~= chars@);
    while i < n
        invariant
            i <= n,
            n == chars@.len(),
            pat@ == pattern@,
            pat@.len() > 0,
            replaced(chars@, pattern@, with@) == out@ + replaced(
                chars@.subrange(i as int, n as int),
                pattern@,
                with@,
            ),
        decreases n - i,
    {
        let ghost rest = chars@.subrange(i as int, n as int);
        let ghost done = out@;
        if pat.len() <= n - i && same_chars(&chars, i, &pat) {
            proof {
                assert(rest.subrange(0, pat@.len() as int) =~= chars@.subrange(
                    i as int,
                    i + pat@.len(),
                ));
                assert(rest.subrange(pat@.len() as int, rest.len() as int) =~= chars@.subrange(
                    i + pat@.len(),
                    n as int,
                ));
            }
            out.append(with);
            i = i + pat.len();
            assert(out@ + replaced(chars@.subrange(i as int, n as int), pattern@, with@)
                =~= done + replaced(rest, pattern@, with@));
        } else {
            proof {
                if pat@.len() <= rest.len() {
                    assert(rest.subrange(0, pat@.len() as int) =~= chars@.subrange(
                        i as int,
                        i + pat@.len(),
                    ));
                }
                assert(rest.subrange(1, rest.len() as int) =~= chars@.subrange(i + 1, n as int));
            }
            out.push(chars[i]);
            i = i + 1;
            assert(out@ + replaced(chars@.subrange(i as int, n as int), pattern@, with@)
                =~= done + replaced(rest, pattern@, with@));
        }
    }
    assert(out@ =~= replaced(chars@, pattern@, with@));
    out
}

/// Whether `pattern` occurs in `s`.
pub open spec fn occurs(s: Seq<char>, pattern: Seq<char>) -> bool
    decreases s.len(),
{
    has_prefix(s, pattern) || (s.len() > 0 && occurs(s.subrange(1, s.len() as int), pattern))
}

/// Where a pattern does not occur, replacing it changes nothing.
pub proof fn replacing_nothing(s: Seq<char>, pattern: Seq<char>, with: Seq<char>)
    requires
        !occurs(s, pattern),
    ensures
        replaced(s, pattern, with) == s,
    decreases s.len(),
{
    if s.len() > 0 && pattern.len() > 0 {
        replacing_nothing(s.subrange(1, s.len() as int), pattern, with);
        assert(s =~= seq![s[0]] + s.subrange(1, s.len() as int));
    }
}

/// The models of a list of strings.
pub open spec fn texts(list: Seq<String>) -> Seq<Seq<char>> {
    Seq::new(list.len(), |i: int| list[i]@)
}

/// Whether a list of strings holds `text`.
pub fn contains_text(list: &Vec<String>, text: &str) -> (r: bool)
    ensures
        r == texts(list@).contains(text@),
{
    let mut i: usize = 0;
    while i < list.len()
        invariant
            i <= list@.len(),
            forall|j: int| 0 <= j < i ==> #[trigger] texts(list@)[j] != text@,
        decreases list@.len() - i,
    {
        if same_text(list[i].as_str(), text) {
            assert(texts(list@)[i as int] == text@);
            return true;
        }
        i = i + 1;
    }
    false
}

/// Whether every character is a decimal digit.
pub open spec fn all_digits(s: Seq<char>) -> bool {
    forall|i: int| 0 <= i < s.len() ==> '0' <= #[trigger] s[i] <= '9'
}

/// The number that digits denote.
pub open spec fn digits_value(s: Seq<char>) -> nat
    decreases s.len(),
{
    if s.len() == 0 {
        0
    } else {
        (digits_value(s.drop_last()) * 10 + (s.last() as int - '0' as int)) as nat
    }
}

/// The number that a text denotes: digits, perhaps behind a plus sign, that do not go beyond what 32
/// bits hold.
pub open spec fn u32_of(s: Seq<char>) -> Option<u32> {
    let digits = if s.len() > 0 && s[0] == '+' {
        s.skip(1)
    } else {
        s
    };
    if digits.len() > 0 && all_digits(digits) && digits_value(digits) <= u32::MAX {
        Some(digits_value(digits) as u32)
    } else {
        None
    }
}

proof fn lemma_digits_grow(s: Seq<char>, k: int)
    requires
        all_digits(s),
        0 <= k <= s.len(),
    ensures
        digits_value(s.take(k)) <= digits_value(s),
    decreases s.len(),
{
    if k == s.len() {
        assert(s.take(k) =~= s);
    } else {
        let shorter = s.drop_last();
        assert(shorter.take(k) =~= s.take(k));
        assert forall|i: int| 0 <= i < shorter.len() implies '0' <= #[trigger] shorter[i] <= '9' by {
            assert(s[i] == shorter[i]);
        }
        lemma_digits_grow(shorter, k);
        assert('0' <= s[s.len() - 1] <= '9');
    }
}

/// The number that a text denotes.
pub fn parse_u32(s: &str) -> (r: Option<u32>)
    ensures
        r == u32_of(s@),
{
    let chars: Vec<char> = to_chars(s);
    let from: usize = if chars.len() > 0 && chars[0] == '+' {
        1
    } else {
        0
    };
    let ghost digits = if s@.len() > 0 && s@[0] == '+' {
        s@.skip(1)
    } else {
        s@
    };
    assert(digits =~= chars@.skip(from as int));
    if chars.len() == from {
        return None;
    }
    let mut value: u64 = 0;
    let mut i: usize = from;
    assert(digits.take(0) =~= Seq::empty());
    while i < chars.len()
        invariant
            s@ == chars@,
            digits == (if s@.len() > 0 && s@[0] == '+' {
                s@.skip(1)
            } else {
                s@
            }),
            digits == chars@.skip(from as int),
            from <= i <= chars@.len(),
            value <= u32::MAX,
            value == digits_value(digits.take(i - from)),
            forall|j: int| 0 <= j < i - from ==> '0' <= #[trigger] digits[j] <= '9',
        decreases chars@.len() - i,
    {
        let c: char = chars[i];
        let ghost k = i - from;
        assert(digits[k] == c);
        if !('0' <= c && c <= '9') {
            return None;
        }
        assert(digits.take(k + 1).drop_last() =~= digits.take(k));
        assert(digits.take(k + 1).last() == c);
        value = value * 10 + (c as u32 - '0' as u32) as u64;
        if value > 0xffff_ffff {
            proof {
                if all_digits(digits) {
                    lemma_digits_grow(digits, k + 1);
                }
            }
            return None;
        }
        i = i + 1;
    }
    assert(digits.take(i - from) =~= digits);
    Some(value as u32)
}

proof fn lemma_decimal_reads_back(n: nat)
    ensures
        decimal(n).len() > 0,
        all_digits(decimal(n)),
        digits_value(decimal(n)) == n,
    decreases n,
{
    if n < 10 {
        reveal_with_fuel(digits_value, 2);
        assert(decimal(n).drop_last() =~= Seq::empty());
    } else {
        lemma_decimal_reads_back(n / 10);
        let head = decimal(n / 10);
        let whole = decimal(n);
        assert(whole =~= head.push(digit((n % 10) as int)));
        assert(whole.drop_last() =~= head);
        assert forall|i: int| 0 <= i < whole.len() implies '0' <= #[trigger] whole[i] <= '9' by {
            if i < head.len() {
                assert(whole[i] == head[i]);
            }
        }
    }
}

/// A number that was written in decimal notation reads back, with no space around it to take off.
pub proof fn decimal_reads_back(n: u32)
    ensures
        trimmed(decimal(n as nat)) == decimal(n as nat),
        u32_of(decimal(n as nat)) == Some(n),
{
    lemma_decimal_reads_back(n as nat);
    let s = decimal(n as nat);
    assert('0' <= s[0] <= '9');
    assert('0' <= s[s.len() - 1] <= '9');
    assert(!is_space(s[0]));
    assert(!is_space(s[s.len() - 1]));
    assert(drop_leading(s, space()) == s);
    assert(drop_trailing(s, space()) == s);
}

/// The list without its first entry `text`.
pub open spec fn without_first(list: Seq<Seq<char>>, text: Seq<char>) -> Seq<Seq<char>>
    decreases list.len(),
{
    if list.len() == 0 {
        list
    } else if list[0] == text {
        list.skip(1)
    } else {
        seq![list[0]] + without_first(list.skip(1), text)
    }
}

/// Takes the first entry `text` out of a list.
pub fn remove_text(list: &mut Vec<String>, text: &str)
    ensures
        texts(final(list)@) == without_first(texts(old(list)@), text@),
{
    let ghost before = texts(list@);
    let mut i: usize = 0;
    assert(before.skip(0) =~= before);
    while i < list.len()
        invariant
            i <= list@.len(),
            before == texts(list@),
            list@ == old(list)@,
            without_first(before, text@) == before.take(i as int) + without_first(
                before.skip(i as int),
                text@,
            ),
        decreases list@.len() - i,
    {
        assert(before[i as int] == list@[i as int]@);
        assert(before.skip(i as int)[0] == before[i as int]);
        assert(before.skip(i as int).skip(1) =~= before.skip(i + 1));
        if same_text(list[i].as_str(), text) {
            let _ = list.remove(i);
            assert(texts(list@) =~= before.take(i as int) + before.skip(i + 1));
            return;
        }
        assert(before.take(i + 1) =~= before.take(i as int) + seq![before[i as int]]);
        assert(before.take(i as int) + (seq![before[i as int]] + without_first(
            before.skip(i + 1),
            text@,
        )) =~= before.take(i + 1) + without_first(before.skip(i + 1), text@));
        i = i + 1;
    }
    proof {
        assert(before.skip(i as int) =~= Seq::empty());
        assert(before.take(i as int) =~= before);
        assert(without_first(before, text@) =~= before);
    }
}

/// What a list holds besides `key` stays when that is taken out.
pub proof fn others_stay(list: Seq<Seq<char>>, key: Seq<char>, other: Seq<char>)
    requires
        other != key,
        list.contains(other),
    ensures
        without_first(list, key).contains(other),
    decreases list.len(),
{
    let i = choose|i: int| 0 <= i < list.len() && list[i] == other;
    if list[0] == key {
        assert(list.skip(1)[i - 1] == other);
    } else {
        let out = without_first(list, key);
        if i == 0 {
            assert(out[0] == other);
        } else {
            assert(list.skip(1)[i - 1] == other);
            assert(list.skip(1).contains(other));
            others_stay(list.skip(1), key, other);
            let rest = without_first(list.skip(1), key);
            let k = choose|k: int| 0 <= k < rest.len() && rest[k] == other;
            assert(out[k + 1] == other);
        }
    }
}

/// Where nothing occurs twice, what was taken out is gone, and still nothing occurs twice.
pub proof fn taken_out_is_gone(list: Seq<Seq<char>>, key: Seq<char>)
    requires
        list.no_duplicates(),
    ensures
        !without_first(list, key).contains(key),
        without_first(list, key).no_duplicates(),
        forall|x: Seq<char>|
            #[trigger] without_first(list, key).contains(x) ==> list.contains(x),
    decreases list.len(),
{
    if list.len() > 0 {
        let rest = list.skip(1);
        let out = without_first(list, key);
        assert forall|i: int, j: int| 0 <= i < j < rest.len() implies rest[i] != rest[j] by {
            assert(list[i + 1] != list[j + 1]);
        }
        assert forall|x: Seq<char>| #[trigger] rest.contains(x) implies list.contains(x) by {
            let i = choose|i: int| 0 <= i < rest.len() && rest[i] == x;
            assert(list[i + 1] == x);
        }
        if list[0] == key {
            if rest.contains(key) {
                let i = choose|i: int| 0 <= i < rest.len() && rest[i] == key;
                assert(list[i + 1] == list[0]);
            }
        } else {
            taken_out_is_gone(rest, key);
            let shorter = without_first(rest, key);
            assert forall|x: Seq<char>| #[trigger] out.contains(x) implies list.contains(x) && x != key by {
                let i = choose|i: int| 0 <= i < out.len() && out[i] == x;
                if i > 0 {
                    assert(shorter[i - 1] == x);
                    assert(shorter.contains(x));
                } else {
                    assert(list[0] == x);
                }
            }
            if shorter.contains(list[0]) {
                assert(rest.contains(list[0]));
                let i = choose|i: int| 0 <= i < rest.len() && rest[i] == list[0];
                assert(list[i + 1] == list[0]);
            }
            assert forall|i: int, j: int| 0 <= i < j < out.len() implies out[i] != out[j] by {
                assert(shorter[j - 1] == out[j]);
                if i > 0 {
                    assert(shorter[i - 1] == out[i]);
                } else {
                    assert(shorter.contains(out[j]));
                }
            }
        }
    }
}

proof fn lemma_drop_leading(s: Seq<char>, p: spec_fn(char) -> bool) -> (n: int)
    ensures
        0 <= n <= s.len(),
        drop_leading(s, p) == s.skip(n),
        forall|i: int| 0 <= i < n ==> p(#[trigger] s[i]),
        n < s.len() ==> !p(s[n]),
    decreases s.len(),
{
    if s.len() > 0 && p(s[0]) {
        let rest = s.subrange(1, s.len() as int);
        let n = lemma_drop_leading(rest, p);
        assert(rest.skip(n) =~= s.skip(n + 1));
        assert forall|i: int| 0 <= i < n + 1 implies p(#[trigger] s[i]) by {
            if i > 0 {
                assert(rest[i - 1] == s[i]);
            }
        }
        n + 1
    } else {
        assert(s.skip(0) =~= s);
        0
    }
}

proof fn lemma_drop_trailing(s: Seq<char>, p: spec_fn(char) -> bool) -> (n: int)
    ensures
        0 <= n <= s.len(),
        drop_trailing(s, p) == s.take(n),
        forall|i: int| n <= i < s.len() ==> p(#[trigger] s[i]),
        n > 0 ==> !p(s[n - 1]),
    decreases s.len(),
{
    if s.len() > 0 && p(s.last()) {
        let rest = s.drop_last();
        let n = lemma_drop_trailing(rest, p);
        assert(rest.take(n) =~= s.take(n));
        assert forall|i: int| n <= i < s.len() implies p(#[trigger] s[i]) by {
            if i < rest.len() {
                assert(rest[i] == s[i]);
            }
        }
        n
    } else {
        assert(s.take(s.len() as int) =~= s);
        s.len() as int
    }
}

/// Trimming takes white space off both ends of a text, all of it and nothing else.
pub proof fn trimming_takes_off_white_space(s: Seq<char>) -> (r: (int, int))
    ensures
        0 <= r.0 <= r.1 <= s.len(),
        trimmed(s) == s.subrange(r.0, r.1),
        forall|i: int| 0 <= i < r.0 ==> is_space(#[trigger] s[i]),
        forall|i: int| r.1 <= i < s.len() ==> is_space(#[trigger] s[i]),
        r.0 < r.1 ==> !is_space(s[r.0]) && !is_space(s[r.1 - 1]),
{
    let from = lemma_drop_leading(s, space());
    let rest = s.skip(from);
    let n = lemma_drop_trailing(rest, space());
    assert forall|i: int| 0 <= i < from implies is_space(#[trigger] s[i]) by {
        assert(space()(s[i]));
    }
    assert forall|i: int| from + n <= i < s.len() implies is_space(#[trigger] s[i]) by {
        assert(rest[i - from] == s[i]);
        assert(space()(rest[i - from]));
    }
    if n > 0 {
        assert(rest[0] == s[from] && rest[n - 1] == s[from + n - 1]);
        assert(!space()(s[from]));
        assert(!space()(rest[n - 1]));
    }
    assert(rest.take(n) =~= s.subrange(from, from + n));
    (from, from + n)
}

/// A text is blank exactly where it holds nothing but white space.
pub proof fn blank_texts_hold_white_space_alone(s: Seq<char>)
    ensures
        trimmed(s).len() == 0 <==> forall|i: int| 0 <= i < s.len() ==> is_space(#[trigger] s[i]),
{
    let r = trimming_takes_off_white_space(s);
    if r.0 < r.1 {
        assert(!is_space(s[r.0]));
    }
}

/// Taking a character off an end of a text takes off every one of it there and nothing else.
pub proof fn characters_are_taken_off_the_ends(s: Seq<char>, x: char) -> (r: (int, int))
    ensures
        0 <= r.0 <= s.len(),
        without_leading(s, x) == s.skip(r.0),
        forall|i: int| 0 <= i < r.0 ==> #[trigger] s[i] == x,
        r.0 < s.len() ==> s[r.0] != x,
        0 <= r.1 <= s.len(),
        without_trailing(s, x) == s.take(r.1),
        forall|i: int| r.1 <= i < s.len() ==> #[trigger] s[i] == x,
        r.1 > 0 ==> s[r.1 - 1] != x,
{
    let from = lemma_drop_leading(s, only(x));
    let to = lemma_drop_trailing(s, only(x));
    assert forall|i: int| 0 <= i < from implies #[trigger] s[i] == x by {
        assert(only(x)(s[i]));
    }
    assert forall|i: int| to <= i < s.len() implies #[trigger] s[i] == x by {
        assert(only(x)(s[i]));
    }
    if from < s.len() {
        assert(!only(x)(s[from]));
    }
    if to > 0 {
        assert(!only(x)(s[to - 1]));
    }
    (from, to)
}

/// A text begins with another, or ends with it, exactly where it is that text with something behind
/// it or before it.
pub proof fn texts_begin_and_end_with_their_parts(s: Seq<char>, part: Seq<char>)
    ensures
        has_prefix(part + s, part),
        has_suffix(s + part, part),
        has_prefix(s, part) ==> s == part + s.skip(part.len() as int),
        has_suffix(s, part) ==> s == s.take(s.len() - part.len()) + part,
{
    assert((part + s).subrange(0, part.len() as int) =~= part);
    let whole = s + part;
    assert(whole.subrange(whole.len() - part.len(), whole.len() as int) =~= part);
    if has_prefix(s, part) {
        assert(s =~= s.subrange(0, part.len() as int) + s.skip(part.len() as int));
    }
    if has_suffix(s, part) {
        let n = s.len() - part.len();
        assert(s =~= s.take(n) + s.subrange(n, s.len() as int));
    }
}

/// What stands before the first `x` of a text is all of it where there is no `x`, and else what comes
/// before that `x`.
pub proof fn the_part_before_ends_at_the_first(s: Seq<char>, x: char, rest: Seq<char>)
    requires
        !s.contains(x),
    ensures
        before_first(s, x) == s,
        before_first(s + seq![x] + rest, x) == s,
    decreases s.len(),
{
    let whole = s + seq![x] + rest;
    if s.len() > 0 {
        let tail = s.subrange(1, s.len() as int);
        assert(s.contains(s[0]));
        if tail.contains(x) {
            let i = choose|i: int| 0 <= i < tail.len() && tail[i] == x;
            assert(s[i + 1] == x);
        }
        the_part_before_ends_at_the_first(tail, x, rest);
        assert(whole.subrange(1, whole.len() as int) =~= tail + seq![x] + rest);
        assert(seq![s[0]] + tail =~= s);
        assert(whole[0] == s[0]);
    } else {
        assert(whole[0] == x);
        assert(before_first(s, x) =~= s);
    }
}

/// Small letters: every capital from A to Z becomes the small letter thirty-two places on, and every
/// other character stays.
pub proof fn capitals_become_small(s: Seq<char>)
    ensures
        lower(s).len() == s.len(),
        forall|i: int|
            0 <= i < s.len() ==> {
                &&& 'A' <= s[i] <= 'Z' ==> (#[trigger] lower(s)[i]) as int == s[i] as int + 32
                &&& !('A' <= s[i] <= 'Z') ==> lower(s)[i] == s[i]
            },
{
}

/// A number is written digit by digit, the ones last, without zeros before it; a minus sign stands
/// before one below zero.
pub proof fn numbers_are_written_in_tens(n: nat)
    ensures
        n < 10 ==> decimal(n).len() == 1 && decimal(n)[0] as int == 48 + n,
        n >= 10 ==> decimal(n).drop_last() == decimal(n / 10) && decimal(n).last() as int == 48 + n
            % 10,
        n > 0 ==> decimal(n)[0] != '0',
        signed_decimal(n as int) == decimal(n),
        n > 0 ==> signed_decimal(-(n as int)).len() == decimal(n).len() + 1 && signed_decimal(
            -(n as int),
        )[0] == '-' && signed_decimal(-(n as int)).skip(1) == decimal(n),
    decreases n,
{
    if n >= 10 {
        numbers_are_written_in_tens(n / 10);
        lemma_decimal_is_long(n / 10);
        assert(decimal(n).drop_last() =~= decimal(n / 10));
        assert(decimal(n)[0] == decimal(n / 10)[0]);
    }
    if n > 0 {
        assert(signed_decimal(-(n as int)).skip(1) =~= decimal(n));
    }
}

proof fn lemma_decimal_is_long(n: nat)
    ensures
        decimal(n).len() > 0,
{
}

/// A number is read digit by digit, from the left; a plus sign may stand before it. What holds
/// another character, no digit, or a number too large, says none.
pub proof fn numbers_are_read_from_the_left(s: Seq<char>, c: char)
    requires
        '0' <= c <= '9',
    ensures
        digits_value(Seq::empty()) == 0,
        all_digits(s) ==> digits_value(s.push(c)) == 10 * digits_value(s) + (c as int - 48),
        s.len() > 0 && s[0] != '+' && all_digits(s) && digits_value(s) <= u32::MAX ==> u32_of(s)
            == Some(digits_value(s) as u32) && u32_of(seq!['+'] + s) == u32_of(s),
        s.len() > 0 && all_digits(s) && digits_value(s) > u32::MAX ==> u32_of(s) is None,
        u32_of(Seq::empty()) is None,
        u32_of(seq!['+']) is None,
        forall|i: int|
            0 <= i < s.len() && !('0' <= #[trigger] s[i] <= '9') && (i > 0 || s[i] != '+')
                ==> u32_of(s) is None,
{
    assert(s.push(c).drop_last() =~= s);
    assert((seq!['+'] + s).skip(1) =~= s);
    assert(seq!['+'].skip(1) =~= Seq::empty());
    if s.len() > 0 && all_digits(s) {
        assert('0' <= s[0] <= '9');
    }
    assert forall|i: int|
        0 <= i < s.len() && !('0' <= #[trigger] s[i] <= '9') && (i > 0 || s[i] != '+') implies u32_of(
        s,
    ) is None by {
        if s[0] == '+' {
            assert(s.skip(1)[i - 1] == s[i]);
        }
    }
}

/// Of two texts the one sorts first that has the lower character where they first differ, or that the
/// other begins with.
pub proof fn texts_sort_by_their_first_difference(
    front: Seq<char>,
    a: char,
    b: char,
    x: Seq<char>,
    y: Seq<char>,
)
    ensures
        a < b ==> text_lt(front + seq![a] + x, front + seq![b] + y),
        text_lt(front, front + seq![a] + x),
        !text_lt(front + seq![a] + x, front),
    decreases front.len(),
{
    let s = front + seq![a] + x;
    let t = front + seq![b] + y;
    if front.len() > 0 {
        let rest = front.subrange(1, front.len() as int);
        texts_sort_by_their_first_difference(rest, a, b, x, y);
        assert(s.subrange(1, s.len() as int) =~= rest + seq![a] + x);
        assert(t.subrange(1, t.len() as int) =~= rest + seq![b] + y);
    }
}

/// Only the first entry of a text is taken out; what was before it and behind it stays in order. A
/// list without it stays as it is.
pub proof fn only_the_first_entry_is_taken_out(list: Seq<Seq<char>>, text: Seq<char>)
    ensures
        forall|i: int|
            #![trigger list[i]]
            0 <= i < list.len() && list[i] == text && (forall|j: int|
                0 <= j < i ==> #[trigger] list[j] != text) ==> without_first(list, text)
                == list.remove(i),
        !list.contains(text) ==> without_first(list, text) == list,
    decreases list.len(),
{
    if list.len() > 0 {
        let rest = list.skip(1);
        only_the_first_entry_is_taken_out(rest, text);
        assert forall|i: int|
            #![trigger list[i]]
            0 <= i < list.len() && list[i] == text && (forall|j: int|
                0 <= j < i ==> #[trigger] list[j] != text) implies without_first(list, text)
            == list.remove(i) by {
            if i == 0 {
                assert(list.skip(1) =~= list.remove(0));
            } else {
                assert(list[0] != text);
                assert(rest[i - 1] == text);
                assert forall|j: int| 0 <= j < i - 1 implies #[trigger] rest[j] != text by {
                    assert(rest[j] == list[j + 1]);
                }
                assert(seq![list[0]] + rest.remove(i - 1) =~= list.remove(i));
            }
        }
        if !list.contains(text) {
            assert(list[0] != text);
            assert(!rest.contains(text)) by {
                if rest.contains(text) {
                    let j = choose|j: int| 0 <= j < rest.len() && rest[j] == text;
                    assert(list[j + 1] == text);
                }
            }
            assert(seq![list[0]] + rest =~= list);
        }
    }
}

/// A pattern at the start is replaced, and the rest goes on behind it. Where the pattern does not
/// begin, a character stays.
pub proof fn patterns_are_replaced_from_the_left(
    pattern: Seq<char>,
    with: Seq<char>,
    c: char,
    rest: Seq<char>,
)
    requires
        pattern.len() > 0,
    ensures
        replaced(pattern + rest, pattern, with) == with + replaced(rest, pattern, with),
        !has_prefix(seq![c] + rest, pattern) ==> replaced(seq![c] + rest, pattern, with) == seq![c]
            + replaced(rest, pattern, with),
        replaced(Seq::empty(), pattern, with) == Seq::<char>::empty(),
{
    let whole = pattern + rest;
    assert(whole.subrange(0, pattern.len() as int) =~= pattern);
    assert(whole.take(pattern.len() as int) =~= pattern);
    assert(whole.subrange(pattern.len() as int, whole.len() as int) =~= rest);
    assert((seq![c] + rest).subrange(1, rest.len() as int + 1) =~= rest);
}

/// A list and an optional text are modelled entry by entry.
pub proof fn text_models_are_faithful(list: Seq<String>, text: Option<String>)
    ensures
        texts(list).len() == list.len(),
        forall|i: int| 0 <= i < list.len() ==> #[trigger] texts(list)[i] == list[i]@,
        text matches Some(t) ==> opt_text(text) == Some(t@),
        text is None ==> opt_text(text) is None,
{
}
} // verus!
