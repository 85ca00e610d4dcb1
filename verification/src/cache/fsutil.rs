//! Checksums, and the age of files.

use vstd::prelude::*;

use crate::text::{ascii_lower, lower, to_chars, trim, trimmed};

verus! {

/// `s` without the character `x`.
pub open spec fn without(s: Seq<char>, x: char) -> Seq<char>
    decreases s.len(),
{
    if s.len() == 0 {
        Seq::empty()
    } else if s.last() == x {
        without(s.drop_last(), x)
    } else {
        without(s.drop_last(), x).push(s.last())
    }
}

/// A checksum as it is compared: without white space at its ends, in small letters, without colons.
pub open spec fn checksum_form(value: Seq<char>) -> Seq<char> {
    without(lower(trimmed(value)), ':')
}

/// A checksum as it is compared.
pub fn normalize_checksum(value: &str) -> (r: String)
    ensures
        r@ == checksum_form(value@),
{
    let small: String = ascii_lower(trim(value).as_str());
    let chars: Vec<char> = to_chars(small.as_str());
    let mut out: String = String::new();
    let mut i: usize = 0;
    assert(without(chars@.take(0), ':') =~= Seq::empty());
    while i < chars.len()
        invariant
            i <= chars@.len(),
            out@ == without(chars@.take(i as int), ':'),
        decreases chars@.len() - i,
    {
        assert(chars@.take(i + 1).drop_last() =~= chars@.take(i as int));
        if chars[i] != ':' {
            out.push(chars[i]);
        }
        i = i + 1;
    }
    assert(chars@.take(i as int) =~= chars@);
    out
}

proof fn lemma_without(s: Seq<char>, x: char)
    ensures
        forall|i: int| 0 <= i < without(s, x).len() ==> #[trigger] without(s, x)[i] != x,
        (forall|i: int| 0 <= i < s.len() ==> #[trigger] s[i] != x) ==> without(s, x) == s,
    decreases s.len(),
{
    if s.len() > 0 {
        lemma_without(s.drop_last(), x);
        let before = without(s.drop_last(), x);
        let out = without(s, x);
        assert forall|i: int| 0 <= i < out.len() implies #[trigger] out[i] != x by {
            if i < before.len() {
                assert(out[i] == before[i]);
            }
        }
        if forall|i: int| 0 <= i < s.len() ==> #[trigger] s[i] != x {
            assert forall|i: int| 0 <= i < s.drop_last().len() implies #[trigger] s.drop_last()[i]
                != x by {
                assert(s.drop_last()[i] == s[i]);
            }
            assert(s.last() == s[s.len() - 1]);
            assert(s =~= s.drop_last().push(s.last()));
        }
    }
}

/// A digest in hexadecimal notation is already in the form in which checksums are compared.
pub proof fn digests_are_in_checksum_form(bytes: Seq<u8>)
    ensures
        checksum_form(crate::digest::hex(bytes)) == crate::digest::hex(bytes),
{
    let s = crate::digest::hex(bytes);
    lemma_hex_chars(bytes);
    lemma_trim_plain(s);
    assert(lower(s) =~= s) by {
        assert forall|i: int| 0 <= i < s.len() implies crate::text::lower_char(#[trigger] s[i])
            == s[i] by {}
    }
    lemma_without(s, ':');
}

proof fn lemma_hex_chars(bytes: Seq<u8>)
    ensures
        forall|i: int|
            0 <= i < crate::digest::hex(bytes).len() ==> ('0' <= #[trigger] crate::digest::hex(bytes)[i]
                <= '9' || 'a' <= crate::digest::hex(bytes)[i] <= 'f'),
    decreases bytes.len(),
{
    if bytes.len() > 0 {
        lemma_hex_chars(bytes.drop_last());
        let before = crate::digest::hex(bytes.drop_last());
        let out = crate::digest::hex(bytes);
        assert forall|i: int| 0 <= i < out.len() implies ('0' <= #[trigger] out[i] <= '9' || 'a'
            <= out[i] <= 'f') by {
            if i < before.len() {
                assert(out[i] == before[i]);
            }
        }
    }
}

proof fn lemma_trim_plain(s: Seq<char>)
    requires
        forall|i: int| 0 <= i < s.len() ==> !crate::text::is_space(#[trigger] s[i]),
    ensures
        trimmed(s) == s,
{
    if s.len() > 0 {
        assert(!crate::text::is_space(s[0]));
        assert(!crate::text::is_space(s[s.len() - 1]));
    }
}

/// When a file was modified: milliseconds since the epoch, of a file that was modified before it
/// zero. `since_epoch` holds nothing where that is not known, and no number where it was before the
/// epoch.
pub fn file_modified_millis(since_epoch: Option<Option<i64>>) -> (r: Option<i64>)
    ensures
        r == (match since_epoch {
            Some(Some(millis)) => Some(millis),
            Some(None) => Some(0i64),
            None => None,
        }),
{
    match since_epoch {
        Some(Some(millis)) => Some(millis),
        Some(None) => Some(0),
        None => None,
    }
}

/// How long ago a file was modified; a file of which that is not known is as good as new.
pub fn file_age_millis(modified: Option<i64>, now_millis: i64) -> (r: i64)
    requires
        modified matches Some(m) ==> i64::MIN <= now_millis - m <= i64::MAX,
    ensures
        r == (match modified {
            Some(m) => now_millis - m,
            None => 0,
        }),
{
    match modified {
        Some(m) => now_millis - m,
        None => 0,
    }
}

proof fn lemma_without_parts(a: Seq<char>, b: Seq<char>, x: char)
    ensures
        without(a + b, x) == without(a, x) + without(b, x),
    decreases b.len(),
{
    if b.len() == 0 {
        assert(a + b =~= a);
        assert(without(a, x) + without(b, x) =~= without(a, x));
    } else {
        lemma_without_parts(a, b.drop_last(), x);
        assert((a + b).drop_last() =~= a + b.drop_last());
        assert((a + b).last() == b.last());
        assert(without(a + b, x) =~= without(a, x) + without(b, x));
    }
}

/// Two checksums are the same whatever colons they are written with and whether their letters are
/// small or capital: what is compared holds neither.
pub proof fn checksums_are_compared_by_their_digits(a: Seq<char>, b: Seq<char>, value: Seq<char>)
    ensures
        without(a + seq![':'] + b, ':') == without(a + b, ':'),
        forall|i: int|
            0 <= i < checksum_form(value).len() ==> #[trigger] checksum_form(value)[i] != ':',
        (forall|i: int| 0 <= i < value.len() ==> #[trigger] value[i] != ':' && !('A' <= value[i]
            <= 'Z') && !crate::text::is_space(value[i])) ==> checksum_form(value) == value,
{
    lemma_without_parts(a, seq![':'], ':');
    lemma_without_parts(a + seq![':'], b, ':');
    lemma_without_parts(a, b, ':');
    assert(seq![':'].drop_last() =~= Seq::empty());
    reveal_with_fuel(without, 2);
    assert(without(seq![':'], ':') =~= Seq::empty());
    assert(without(a, ':') + Seq::empty() =~= without(a, ':'));
    lemma_without(lower(trimmed(value)), ':');
    if forall|i: int| 0 <= i < value.len() ==> #[trigger] value[i] != ':' && !('A' <= value[i]
        <= 'Z') && !crate::text::is_space(value[i]) {
        lemma_trim_plain(value);
        assert(lower(value) =~= value) by {
            assert forall|i: int| 0 <= i < value.len() implies crate::text::lower_char(
                #[trigger] value[i],
            ) == value[i] by {}
        }
    }
}

} // verus!
