//! Small verified building blocks over strings and byte slices: character
//! classes, equality, trimming, and decimal numbers.

use vstd::prelude::*;
use vstd::string::StrSliceExecFns;
use vstd::string::StringExecFns;

verus! {

/// Decimal digit, as a character.
pub open spec fn is_digit(c: char) -> bool {
    48 <= c as u32 && c as u32 <= 57
}

/// Numeric value of a decimal digit character.
pub open spec fn digit_val(c: char) -> nat {
    if is_digit(c) {
        (c as u32 - 48) as nat
    } else {
        0
    }
}

pub open spec fn all_digits(s: Seq<char>) -> bool {
    forall|i: int| 0 <= i < s.len() ==> is_digit(#[trigger] s[i])
}

/// Value of a string of decimal digits, most significant first.
pub open spec fn dec_val(s: Seq<char>) -> nat
    decreases s.len(),
{
    if s.len() == 0 {
        0
    } else {
        dec_val(s.drop_last()) * 10 + digit_val(s.last())
    }
}

/// ASCII whitespace, the characters `trim` strips from a log line.
pub open spec fn is_ws(c: char) -> bool {
    c == ' ' || c == '\t' || c == '\n' || c == '\r'
}

pub open spec fn trim_front(s: Seq<char>) -> Seq<char>
    decreases s.len(),
{
    if s.len() > 0 && is_ws(s[0]) {
        trim_front(s.drop_first())
    } else {
        s
    }
}

pub open spec fn trim_back(s: Seq<char>) -> Seq<char>
    decreases s.len(),
{
    if s.len() > 0 && is_ws(s.last()) {
        trim_back(s.drop_last())
    } else {
        s
    }
}

/// The string with leading and trailing ASCII whitespace removed.
pub open spec fn trimmed(s: Seq<char>) -> Seq<char> {
    trim_back(trim_front(s))
}

/// Relies on String::push: appends one character at the end.
#[verifier::external_body]
pub fn push_char(s: &mut String, c: char)
    ensures
        final(s)@ == old(s)@.push(c),
{
    s.push(c)
}

/// Character-by-character string equality, usable wherever the views must be
/// compared.
pub fn str_eq(a: &str, b: &str) -> (r: bool)
    ensures
        r == (a@ == b@),
{
    let alen = a.unicode_len();
    let blen = b.unicode_len();
    if alen != blen {
        return false;
    }
    let mut i: usize = 0;
    while i < alen
        invariant
            alen == a@.len(),
            blen == b@.len(),
            alen == blen,
            i <= alen,
            forall|j: int| 0 <= j < i ==> a@[j] == b@[j],
        decreases alen - i,
    {
        if a.get_char(i) != b.get_char(i) {
            return false;
        }
        i = i + 1;
    }
    proof {
        assert(a@ =~= b@);
    }
    true
}

pub fn is_ws_char(c: char) -> (r: bool)
    ensures
        r == is_ws(c),
{
    c == ' ' || c == '\t' || c == '\n' || c == '\r'
}

proof fn lemma_trim_front_skip(s: Seq<char>, i: int)
    requires
        0 <= i <= s.len(),
        forall|k: int| 0 <= k < i ==> is_ws(#[trigger] s[k]),
        i == s.len() || !is_ws(s[i]),
    ensures
        trim_front(s) == s.skip(i),
    decreases i,
{
    if i == 0 {
        assert(s.skip(0) =~= s);
    } else {
        assert(is_ws(s[0]));
        lemma_trim_front_skip(s.drop_first(), i - 1);
        assert(s.drop_first().skip(i - 1) =~= s.skip(i));
    }
}

proof fn lemma_trim_back_take(s: Seq<char>, j: int)
    requires
        0 <= j <= s.len(),
        forall|k: int| j <= k < s.len() ==> is_ws(#[trigger] s[k]),
        j == 0 || !is_ws(s[j - 1]),
    ensures
        trim_back(s) == s.take(j),
    decreases s.len() - j,
{
    if j == s.len() {
        assert(s.take(j) =~= s);
    } else {
        assert(is_ws(s.last()));
        lemma_trim_back_take(s.drop_last(), j);
        assert(s.drop_last().take(j) =~= s.take(j));
    }
}

/// The argument without leading or trailing ASCII whitespace.
pub fn trim(s: &str) -> (r: &str)
    ensures
        r@ == trimmed(s@),
{
    let len = s.unicode_len();
    let mut i: usize = 0;
    while i < len && is_ws_char(s.get_char(i))
        invariant
            len == s@.len(),
            i <= len,
            forall|k: int| 0 <= k < i ==> is_ws(#[trigger] s@[k]),
        decreases len - i,
    {
        i = i + 1;
    }
    let mut j: usize = len;
    while j > i && is_ws_char(s.get_char(j - 1))
        invariant
            len == s@.len(),
            i <= j <= len,
            forall|k: int| j <= k < len ==> is_ws(#[trigger] s@[k]),
        decreases j,
    {
        j = j - 1;
    }
    let r = s.substring_char(i, j);
    proof {
        lemma_trim_front_skip(s@, i as int);
        lemma_trim_back_take(s@.skip(i as int), j - i);
        assert(s@.skip(i as int).take(j - i) =~= s@.subrange(i as int, j as int));
    }
    r
}

proof fn lemma_dec_val_take_mono(s: Seq<char>, i: int)
    requires
        0 <= i <= s.len(),
    ensures
        dec_val(s.take(i)) <= dec_val(s),
    decreases s.len(),
{
    if i < s.len() {
        assert(s.drop_last().take(i) =~= s.take(i));
        lemma_dec_val_take_mono(s.drop_last(), i);
        assert(dec_val(s) == dec_val(s.drop_last()) * 10 + digit_val(s.last()));
        assert(dec_val(s.drop_last()) * 10 >= dec_val(s.drop_last()));
    } else {
        assert(s.take(i) =~= s);
    }
}

/// Parses a decimal number; yields a value exactly for non-empty all-digit
/// strings whose value fits in a `u32`.
pub fn parse_u32(s: &str) -> (r: Option<u32>)
    ensures
        r is Some <==> (s@.len() > 0 && all_digits(s@) && dec_val(s@) <= u32::MAX),
        r is Some ==> r->0 as nat == dec_val(s@),
{
    let len = s.unicode_len();
    if len == 0 {
        return None;
    }
    let mut acc: u64 = 0;
    let mut i: usize = 0;
    while i < len
        invariant
            len == s@.len(),
            i <= len,
            all_digits(s@.take(i as int)),
            acc as nat == dec_val(s@.take(i as int)),
            acc <= u32::MAX,
        decreases len - i,
    {
        let c = s.get_char(i);
        let cu = c as u32;
        if cu < 48 || cu > 57 {
            assert(!is_digit(s@[i as int]));
            return None;
        }
        proof {
            assert(s@.take(i + 1).drop_last() =~= s@.take(i as int));
            assert(s@.take(i + 1).last() == s@[i as int]);
        }
        let next: u64 = acc * 10 + (cu - 48) as u64;
        if next > u32::MAX as u64 {
            proof {
                lemma_dec_val_take_mono(s@, i + 1);
            }
            return None;
        }
        acc = next;
        i = i + 1;
    }
    proof {
        assert(s@.take(len as int) =~= s@);
    }
    Some(acc as u32)
}

/// Parses a decimal number; yields a value exactly for non-empty all-digit
/// strings whose value fits in a `u64`.
pub fn parse_u64(s: &str) -> (r: Option<u64>)
    ensures
        r is Some <==> (s@.len() > 0 && all_digits(s@) && dec_val(s@) <= u64::MAX),
        r is Some ==> r->0 as nat == dec_val(s@),
{
    let len = s.unicode_len();
    if len == 0 {
        return None;
    }
    let mut acc: u128 = 0;
    let mut i: usize = 0;
    while i < len
        invariant
            len == s@.len(),
            i <= len,
            all_digits(s@.take(i as int)),
            acc as nat == dec_val(s@.take(i as int)),
            acc <= u64::MAX,
        decreases len - i,
    {
        let c = s.get_char(i);
        let cu = c as u32;
        if cu < 48 || cu > 57 {
            assert(!is_digit(s@[i as int]));
            return None;
        }
        proof {
            assert(s@.take(i + 1).drop_last() =~= s@.take(i as int));
            assert(s@.take(i + 1).last() == s@[i as int]);
        }
        let next: u128 = acc * 10 + (cu - 48) as u128;
        if next > u64::MAX as u128 {
            proof {
                lemma_dec_val_take_mono(s@, i + 1);
            }
            return None;
        }
        acc = next;
        i = i + 1;
    }
    proof {
        assert(s@.take(len as int) =~= s@);
    }
    Some(acc as u64)
}

/// The first position of the character, or the length when absent.
pub open spec fn idx_of(s: Seq<char>, c: char) -> int
    decreases s.len(),
{
    if s.len() == 0 {
        0
    } else if s[0] == c {
        0
    } else {
        1 + idx_of(s.drop_first(), c)
    }
}

pub proof fn lemma_idx_of(s: Seq<char>, c: char)
    ensures
        0 <= idx_of(s, c) <= s.len(),
        idx_of(s, c) < s.len() ==> s[idx_of(s, c)] == c,
        forall|k: int| 0 <= k < idx_of(s, c) ==> s[k] != c,
    decreases s.len(),
{
    if s.len() > 0 && s[0] != c {
        lemma_idx_of(s.drop_first(), c);
        assert(forall|k: int|
            1 <= k < idx_of(s, c) ==> #[trigger] s[k] == s.drop_first()[k - 1]);
    }
}

pub open spec fn has_char(s: Seq<char>, c: char) -> bool {
    exists|i: int| 0 <= i < s.len() && s[i] == c
}

pub proof fn lemma_idx_of_has_char(s: Seq<char>, c: char)
    ensures
        has_char(s, c) <==> idx_of(s, c) < s.len(),
    decreases s.len(),
{
    lemma_idx_of(s, c);
    if has_char(s, c) {
        let i = choose|i: int| 0 <= i < s.len() && s[i] == c;
        if idx_of(s, c) == s.len() {
            assert(s[i] != c);
        }
    }
}

/// Whether the character occurs in the string.
pub fn str_has_char(s: &str, c: char) -> (r: bool)
    ensures
        r == has_char(s@, c),
{
    let len = s.unicode_len();
    let mut i: usize = 0;
    while i < len
        invariant
            len == s@.len(),
            i <= len,
            forall|k: int| 0 <= k < i ==> s@[k] != c,
        decreases len - i,
    {
        if s.get_char(i) == c {
            return true;
        }
        i = i + 1;
    }
    false
}

/// The first position of the character, as [`idx_of`] counts it.
pub fn find_char(s: &str, c: char) -> (r: usize)
    ensures
        r == idx_of(s@, c),
{
    proof {
        lemma_idx_of(s@, c);
    }
    let len = s.unicode_len();
    let mut i: usize = 0;
    while i < len
        invariant
            len == s@.len(),
            i <= len,
            forall|k: int| 0 <= k < i ==> s@[k] != c,
        decreases len - i,
    {
        if s.get_char(i) == c {
            proof {
                lemma_idx_of_found(s@, c, i as int);
            }
            return i;
        }
        i = i + 1;
    }
    proof {
        lemma_idx_of_none(s@, c);
    }
    len
}

proof fn lemma_idx_of_found(s: Seq<char>, c: char, j: int)
    requires
        0 <= j < s.len(),
        s[j] == c,
        forall|k: int| 0 <= k < j ==> s[k] != c,
    ensures
        idx_of(s, c) == j,
    decreases j,
{
    if j > 0 {
        assert(s[0] != c);
        lemma_idx_of_found(s.drop_first(), c, j - 1);
        assert(forall|k: int| 0 <= k < j - 1 ==> s.drop_first()[k] == s[k + 1]);
    }
}

proof fn lemma_idx_of_none(s: Seq<char>, c: char)
    requires
        forall|k: int| 0 <= k < s.len() ==> s[k] != c,
    ensures
        idx_of(s, c) == s.len(),
    decreases s.len(),
{
    if s.len() > 0 {
        lemma_idx_of_none(s.drop_first(), c);
    }
}

/// The string cut at every occurrence of the character; an empty string is
/// one empty part, and a separator at either end contributes an empty
/// part.
pub open spec fn split_char(s: Seq<char>, c: char) -> Seq<Seq<char>>
    decreases s.len(),
{
    if s.len() == 0 {
        seq![Seq::empty()]
    } else {
        let rest = split_char(s.drop_first(), c);
        if s[0] == c {
            seq![Seq::<char>::empty()] + rest
        } else {
            seq![seq![s[0]] + rest[0]] + rest.drop_first()
        }
    }
}

pub proof fn lemma_split_char_len(s: Seq<char>, c: char)
    ensures
        split_char(s, c).len() >= 1,
    decreases s.len(),
{
    if s.len() > 0 {
        lemma_split_char_len(s.drop_first(), c);
    }
}

proof fn lemma_split_char_push(s: Seq<char>, c: char, x: char)
    ensures
        split_char(s.push(x), c) == if x == c {
            split_char(s, c).push(Seq::<char>::empty())
        } else {
            split_char(s, c).update(
                split_char(s, c).len() - 1,
                split_char(s, c).last().push(x),
            )
        },
    decreases s.len(),
{
    lemma_split_char_len(s, c);
    let p = s.push(x);
    if s.len() == 0 {
        assert(p[0] == x);
        assert(p.drop_first() =~= Seq::<char>::empty());
        assert(split_char(p.drop_first(), c) == seq![Seq::<char>::empty()]);
        assert(split_char(s, c) == seq![Seq::<char>::empty()]);
        if x == c {
            assert(split_char(p, c) == seq![Seq::<char>::empty()] + seq![Seq::<char>::empty()]);
            assert(split_char(p, c) =~= split_char(s, c).push(Seq::<char>::empty()));
        } else {
            assert(seq![x] + split_char(p.drop_first(), c)[0] =~= Seq::<char>::empty().push(x));
            assert(split_char(p, c) =~= split_char(s, c).update(
                0,
                split_char(s, c).last().push(x),
            ));
        }
    } else {
        assert(p[0] == s[0]);
        assert(p.drop_first() =~= s.drop_first().push(x));
        lemma_split_char_push(s.drop_first(), c, x);
        lemma_split_char_len(s.drop_first(), c);
        if x == c {
            let r0 = split_char(s.drop_first(), c);
            let r1 = split_char(p.drop_first(), c);
            assert(r1 == r0.push(Seq::<char>::empty()));
            if s[0] == c {
                assert(split_char(p, c) == seq![Seq::<char>::empty()] + r1);
                assert(seq![Seq::<char>::empty()] + r0.push(Seq::<char>::empty()) =~= (seq![
                    Seq::<char>::empty(),
                ] + r0).push(Seq::<char>::empty()));
            } else {
                assert(r1[0] == r0[0]);
                assert(r1.drop_first() =~= r0.drop_first().push(Seq::<char>::empty()));
                assert(split_char(p, c) == seq![seq![s[0]] + r1[0]] + r1.drop_first());
                assert(seq![seq![s[0]] + r0[0]] + r0.drop_first().push(Seq::<char>::empty())
                    =~= (seq![seq![s[0]] + r0[0]] + r0.drop_first()).push(Seq::<char>::empty()));
            }
            assert(split_char(p, c) =~= split_char(s, c).push(Seq::<char>::empty()));
        } else {
            let r0 = split_char(s.drop_first(), c);
            let r1 = split_char(p.drop_first(), c);
            assert(r1 == r0.update(r0.len() - 1, r0.last().push(x)));
            if s[0] == c {
                assert(split_char(p, c) =~= split_char(s, c).update(
                    split_char(s, c).len() - 1,
                    split_char(s, c).last().push(x),
                ));
            } else {
                if r0.len() == 1 {
                    assert(r1[0] == r0.last().push(x));
                    assert(split_char(p, c) =~= split_char(s, c).update(
                        split_char(s, c).len() - 1,
                        split_char(s, c).last().push(x),
                    ));
                } else {
                    assert(r1[0] == r0[0]);
                    assert(r1.drop_first() =~= r0.drop_first().update(
                        r0.len() - 2,
                        r0.last().push(x),
                    ));
                    assert(split_char(p, c) =~= split_char(s, c).update(
                        split_char(s, c).len() - 1,
                        split_char(s, c).last().push(x),
                    ));
                }
            }
        }
    }
}

/// Splits on every occurrence of the character.
#[verifier::loop_isolation(false)]
pub fn str_split_char(s: &str, c: char) -> (r: Vec<String>)
    ensures
        r.deep_view() == split_char(s@, c),
{
    let mut parts: Vec<String> = Vec::new();
    let mut cur = String::new();
    let len = s.unicode_len();
    let mut i: usize = 0;
    while i < len
        invariant
            len == s@.len(),
            i <= len,
            parts.deep_view().push(cur@) == split_char(s@.take(i as int), c),
        decreases len - i,
    {
        let ch = s.get_char(i);
        proof {
            lemma_split_char_push(s@.take(i as int), c, ch);
            assert(s@.take(i + 1) =~= s@.take(i as int).push(s@[i as int]));
            lemma_split_char_len(s@.take(i as int), c);
        }
        if ch == c {
            let ghost pv = parts.deep_view();
            parts.push(cur);
            cur = String::new();
            proof {
                assert(parts.deep_view() =~= pv.push(split_char(s@.take(i as int), c).last()));
                assert(parts.deep_view().push(cur@) =~= split_char(s@.take(i + 1), c));
            }
        } else {
            push_char(&mut cur, ch);
            proof {
                assert(parts.deep_view().push(cur@) =~= split_char(s@.take(i + 1), c));
            }
        }
        i = i + 1;
    }
    proof {
        assert(s@.take(len as int) =~= s@);
    }
    parts.push(cur);
    parts
}

/// One character sequence occurs somewhere inside another.
pub open spec fn contains_chars(h: Seq<char>, n: Seq<char>) -> bool {
    exists|i: int| 0 <= i && i + n.len() <= h.len() && #[trigger] h.subrange(i, i + n.len()) == n
}

/// A string contains a string, by contiguous match.
pub fn str_contains(h: &str, n: &str) -> (r: bool)
    ensures
        r == contains_chars(h@, n@),
{
    let nlen = n.unicode_len();
    let hlen = h.unicode_len();
    if nlen > hlen {
        return false;
    }
    if nlen == 0 {
        proof {
            assert(h@.subrange(0, 0 + n@.len() as int) =~= n@);
        }
        return true;
    }
    let mut i: usize = 0;
    while i <= hlen - nlen
        invariant
            nlen == n@.len(),
            hlen == h@.len(),
            1 <= nlen <= hlen,
            i <= hlen - nlen + 1,
            forall|p: int| 0 <= p < i ==> #[trigger] h@.subrange(p, p + n@.len()) != n@,
        decreases hlen - nlen - i + 1,
    {
        let mut j: usize = 0;
        let mut ok = true;
        while ok && j < nlen
            invariant
                nlen == n@.len(),
                hlen == h@.len(),
                i + nlen <= hlen,
                j <= nlen,
                ok ==> (forall|k: int| 0 <= k < j ==> h@[i + k] == n@[k]),
                !ok ==> h@.subrange(i as int, i + n@.len()) != n@,
            decreases nlen - j, (if ok { 1int } else { 0int }),
        {
            if h.get_char(i + j) != n.get_char(j) {
                proof {
                    assert(h@.subrange(i as int, i + n@.len())[j as int] == h@[i + j]);
                }
                ok = false;
            } else {
                j = j + 1;
            }
        }
        if ok {
            proof {
                assert(h@.subrange(i as int, i + n@.len()) =~= n@);
            }
            return true;
        }
        i = i + 1;
    }
    false
}

/// ASCII whitespace, as a byte of a log line.
pub open spec fn is_ws_byte(b: u8) -> bool {
    b == 32 || b == 9 || b == 10 || b == 13
}

pub open spec fn blank_bytes(s: Seq<u8>) -> bool {
    forall|i: int| 0 <= i < s.len() ==> is_ws_byte(#[trigger] s[i])
}

/// True when the line holds nothing but ASCII whitespace.
pub fn is_blank(b: &[u8]) -> (r: bool)
    ensures
        r == blank_bytes(b@),
{
    let mut i: usize = 0;
    while i < b.len()
        invariant
            i <= b@.len(),
            forall|k: int| 0 <= k < i ==> is_ws_byte(#[trigger] b@[k]),
        decreases b@.len() - i,
    {
        let x = b[i];
        if !(x == 32 || x == 9 || x == 10 || x == 13) {
            return false;
        }
        i = i + 1;
    }
    true
}

/// One sequence occurs somewhere inside another.
pub open spec fn contains_seq(h: Seq<u8>, n: Seq<u8>) -> bool {
    exists|i: int| 0 <= i && i + n.len() <= h.len() && #[trigger] h.subrange(i, i + n.len()) == n
}

/// A byte slice contains a byte slice, by contiguous match.
pub fn bytes_contain(h: &[u8], n: &[u8]) -> (r: bool)
    ensures
        r == contains_seq(h@, n@),
{
    let nlen = n.len();
    let hlen = h.len();
    if nlen > hlen {
        return false;
    }
    if nlen == 0 {
        proof {
            assert(h@.subrange(0, 0 + n@.len() as int) =~= n@);
        }
        return true;
    }
    let mut i: usize = 0;
    while i <= hlen - nlen
        invariant
            nlen == n@.len(),
            hlen == h@.len(),
            1 <= nlen <= hlen,
            i <= hlen - nlen + 1,
            forall|p: int| 0 <= p < i ==> #[trigger] h@.subrange(p, p + n@.len()) != n@,
        decreases hlen - nlen - i + 1,
    {
        let mut j: usize = 0;
        let mut ok = true;
        while ok && j < nlen
            invariant
                nlen == n@.len(),
                hlen == h@.len(),
                i + nlen <= hlen,
                j <= nlen,
                ok ==> (forall|k: int| 0 <= k < j ==> h@[i + k] == n@[k]),
                !ok ==> h@.subrange(i as int, i + n@.len()) != n@,
            decreases nlen - j, (if ok { 1int } else { 0int }),
        {
            if h[i + j] != n[j] {
                proof {
                    assert(h@.subrange(i as int, i + n@.len())[j as int] == h@[i + j]);
                }
                ok = false;
            } else {
                j = j + 1;
            }
        }
        if ok {
            proof {
                assert(h@.subrange(i as int, i + n@.len()) =~= n@);
            }
            return true;
        }
        i = i + 1;
    }
    false
}

} // verus!
