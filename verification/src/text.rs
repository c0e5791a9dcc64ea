//! Character-level helpers shared by the address, rule and report parsers.

use vstd::prelude::*;

verus! {

/// The pieces of `s` that lie between the occurrences of `sep`, in order.
/// A text without separator is one piece; `n` separators always give `n + 1`
/// pieces, some of which may be empty.
pub open spec fn split(s: Seq<char>, sep: char) -> Seq<Seq<char>>
    decreases s.len(),
{
    if s.len() == 0 {
        seq![Seq::<char>::empty()]
    } else {
        let before = split(s.drop_last(), sep);
        if s.last() == sep {
            before.push(Seq::<char>::empty())
        } else {
            before.drop_last().push(before.last().push(s.last()))
        }
    }
}

/// The pieces put together again, with `sep` between each two.
pub open spec fn join(pieces: Seq<Seq<char>>, sep: char) -> Seq<char>
    decreases pieces.len(),
{
    if pieces.len() == 0 {
        Seq::<char>::empty()
    } else if pieces.len() == 1 {
        pieces[0]
    } else {
        join(pieces.drop_last(), sep) + seq![sep] + pieces.last()
    }
}

/// Whether no piece holds `sep`.
pub open spec fn free_of(pieces: Seq<Seq<char>>, sep: char) -> bool {
    forall|i: int| 0 <= i < pieces.len() ==> !(#[trigger] pieces[i]).contains(sep)
}

/// Splitting a text gives pieces without separator that, joined by the
/// separator, are the text again.
pub proof fn lemma_split_joins(s: Seq<char>, sep: char)
    ensures
        split(s, sep).len() >= 1,
        free_of(split(s, sep), sep),
        join(split(s, sep), sep) == s,
    decreases s.len(),
{
    let p = split(s, sep);
    if s.len() == 0 {
        assert(p[0] =~= Seq::<char>::empty());
        assert(join(p, sep) =~= s);
    } else {
        let front = s.drop_last();
        let before = split(front, sep);
        lemma_split_joins(front, sep);
        if s.last() == sep {
            assert(p.drop_last() =~= before);
            assert(join(p, sep) =~= join(before, sep) + seq![sep] + Seq::<char>::empty());
            assert(join(p, sep) =~= s);
            assert forall|i: int| 0 <= i < p.len() implies !(#[trigger] p[i]).contains(sep) by {
                if i < before.len() {
                    assert(p[i] == before[i]);
                }
            }
        } else {
            let grown = before.last().push(s.last());
            assert(p =~= before.drop_last().push(grown));
            assert(!grown.contains(sep)) by {
                if grown.contains(sep) {
                    let k = choose|k: int| 0 <= k < grown.len() && grown[k] == sep;
                    assert(before.last()[k] == sep);
                    assert(before.last().contains(sep));
                }
            }
            assert forall|i: int| 0 <= i < p.len() implies !(#[trigger] p[i]).contains(sep) by {
                if i < before.len() - 1 {
                    assert(p[i] == before[i]);
                }
            }
            if before.len() == 1 {
                assert(join(before, sep) == before[0]);
                assert(join(p, sep) =~= s);
            } else {
                assert(p.drop_last() =~= before.drop_last());
                assert(join(p, sep) =~= join(before.drop_last(), sep) + seq![sep] + grown);
                assert(join(before, sep) =~= join(before.drop_last(), sep) + seq![sep]
                    + before.last());
                assert(join(p, sep) =~= join(before, sep).push(s.last()));
                assert(join(p, sep) =~= s);
            }
        }
    }
}

/// Pieces without separator, joined by the separator and split again, are
/// the same pieces: a text splits in one way only.
pub proof fn lemma_join_splits(pieces: Seq<Seq<char>>, sep: char)
    requires
        pieces.len() >= 1,
        free_of(pieces, sep),
    ensures
        split(join(pieces, sep), sep) == pieces,
    decreases pieces.len(), pieces.last().len(),
{
    let last = pieces.last();
    if last.len() > 0 {
        let shorter = pieces.drop_last().push(last.drop_last());
        assert(free_of(shorter, sep)) by {
            assert forall|i: int| 0 <= i < shorter.len() implies !(#[trigger] shorter[i]).contains(
                sep,
            ) by {
                if i < pieces.len() - 1 {
                    assert(shorter[i] == pieces[i]);
                } else if shorter[i].contains(sep) {
                    let k = choose|k: int| 0 <= k < shorter[i].len() && shorter[i][k] == sep;
                    assert(last[k] == sep);
                    assert(pieces[pieces.len() - 1].contains(sep));
                }
            }
        }
        lemma_join_splits(shorter, sep);
        let text = join(pieces, sep);
        assert(shorter.drop_last() =~= pieces.drop_last());
        assert(text.drop_last() =~= join(shorter, sep)) by {
            if pieces.len() == 1 {
            } else {
                assert(join(shorter, sep) =~= join(pieces.drop_last(), sep) + seq![sep]
                    + last.drop_last());
            }
        }
        assert(text.last() == last.last());
        assert(last.last() != sep) by {
            assert(last[last.len() - 1] == last.last());
            assert(pieces[pieces.len() - 1].contains(last.last()));
        }
        assert(shorter.drop_last().push(shorter.last().push(text.last())) =~= pieces) by {
            assert(last.drop_last().push(last.last()) =~= last);
        }
    } else if pieces.len() == 1 {
        assert(join(pieces, sep) =~= Seq::<char>::empty());
        assert(pieces =~= seq![Seq::<char>::empty()]);
    } else {
        let front = pieces.drop_last();
        assert(free_of(front, sep)) by {
            assert forall|i: int| 0 <= i < front.len() implies !(#[trigger] front[i]).contains(
                sep,
            ) by {
                assert(front[i] == pieces[i]);
            }
        }
        lemma_join_splits(front, sep);
        let text = join(pieces, sep);
        assert(text =~= join(front, sep).push(sep));
        assert(text.drop_last() =~= join(front, sep));
        assert(last =~= Seq::<char>::empty());
        assert(front.push(Seq::<char>::empty()) =~= pieces);
    }
}

/// Four pieces joined are the pieces with three separators between them.
pub proof fn lemma_join_four(a: Seq<char>, b: Seq<char>, c: Seq<char>, d: Seq<char>, sep: char)
    ensures
        join(seq![a, b, c, d], sep) == a + seq![sep] + b + seq![sep] + c + seq![sep] + d,
{
    let p4 = seq![a, b, c, d];
    let p3 = seq![a, b, c];
    let p2 = seq![a, b];
    let p1 = seq![a];
    assert(p4.drop_last() =~= p3);
    assert(p3.drop_last() =~= p2);
    assert(p2.drop_last() =~= p1);
    assert(join(p1, sep) == a);
    assert(join(p2, sep) == join(p1, sep) + seq![sep] + b);
    assert(join(p3, sep) == join(p2, sep) + seq![sep] + c);
    assert(join(p4, sep) == join(p3, sep) + seq![sep] + d);
}

/// The character sequences held by a vector of character vectors.
pub open spec fn pieces_view(v: Seq<Vec<char>>) -> Seq<Seq<char>> {
    Seq::new(v.len(), |i: int| v[i]@)
}

/// The characters of a string slice as a vector.
pub fn chars_of(s: &str) -> (out: Vec<char>)
    ensures
        out@ == s@,
{
    let mut out: Vec<char> = Vec::new();
    for c in it: s.chars()
        invariant
            it.seq() == s@,
            out@ == it.seq().take(it.index()),
    {
        out.push(c);
    }
    out
}

/// Splits `s` at every occurrence of `sep`.
pub fn split_chars(s: &Vec<char>, sep: char) -> (out: Vec<Vec<char>>)
    ensures
        pieces_view(out@) == split(s@, sep),
{
    let mut done: Vec<Vec<char>> = Vec::new();
    let mut cur: Vec<char> = Vec::new();
    let mut i: usize = 0;
    while i < s.len()
        invariant
            i <= s.len(),
            split(s@.take(i as int), sep) == pieces_view(done@).push(cur@),
        decreases s.len() - i,
    {
        let c = s[i];
        proof {
            let t = s@.take(i + 1);
            assert(t.drop_last() =~= s@.take(i as int));
            assert(t.last() == c);
        }
        if c == sep {
            let ghost before = pieces_view(done@);
            done.push(cur);
            cur = Vec::new();
            assert(pieces_view(done@) =~= before.push(done@.last()@));
        } else {
            let ghost prev = cur@;
            cur.push(c);
            assert(pieces_view(done@).push(prev).drop_last() =~= pieces_view(done@));
        }
        i = i + 1;
    }
    assert(s@.take(i as int) =~= s@);
    let ghost before = pieces_view(done@);
    done.push(cur);
    assert(pieces_view(done@) =~= before.push(done@.last()@));
    done
}

/// Whether `c` is one of the ten decimal digits.
pub open spec fn is_digit(c: char) -> bool {
    '0' <= c && c <= '9'
}

/// The value of a decimal digit.
pub open spec fn digit_value(c: char) -> nat {
    (c as u32 - '0' as u32) as nat
}

/// Whether every character of `s` is a decimal digit.
pub open spec fn all_digits(s: Seq<char>) -> bool {
    forall|i: int| 0 <= i < s.len() ==> is_digit(#[trigger] s[i])
}

/// The number that the decimal digits of `s` write, most significant first.
pub open spec fn decimal_value(s: Seq<char>) -> nat
    decreases s.len(),
{
    if s.len() == 0 {
        0
    } else {
        decimal_value(s.drop_last()) * 10 + digit_value(s.last())
    }
}

/// The number written by `s`, if `s` is a non-empty run of decimal digits.
pub open spec fn number_of(s: Seq<char>) -> Option<nat> {
    if s.len() > 0 && all_digits(s) {
        Some(decimal_value(s))
    } else {
        None
    }
}

/// Adding digits never makes the written number smaller.
pub proof fn lemma_decimal_value_monotonic(s: Seq<char>, n: int)
    requires
        0 <= n <= s.len(),
    ensures
        decimal_value(s.take(n)) <= decimal_value(s),
    decreases s.len() - n,
{
    if n == s.len() {
        assert(s.take(n) =~= s);
    } else {
        lemma_decimal_value_monotonic(s, n + 1);
        assert(s.take(n + 1).drop_last() =~= s.take(n));
    }
}

/// Reads `s` as a decimal number no larger than `max`.
pub fn parse_decimal(s: &Vec<char>, max: u32) -> (r: Option<u32>)
    ensures
        r matches Some(v) ==> number_of(s@) == Some(v as nat) && v <= max,
        r is None ==> (number_of(s@) matches Some(n) ==> n > max),
{
    if s.len() == 0 {
        return None;
    }
    let mut acc: u64 = 0;
    let mut i: usize = 0;
    while i < s.len()
        invariant
            i <= s.len(),
            all_digits(s@.take(i as int)),
            acc == decimal_value(s@.take(i as int)),
            acc <= max,
        decreases s.len() - i,
    {
        let c = s[i];
        proof {
            assert(s@.take(i + 1).drop_last() =~= s@.take(i as int));
            assert(s@.take(i + 1).last() == c);
        }
        if !(c >= '0' && c <= '9') {
            assert(!all_digits(s@)) by {
                assert(!is_digit(s@[i as int]));
            }
            return None;
        }
        let d: u64 = (c as u32 - '0' as u32) as u64;
        let next: u64 = acc * 10 + d;
        if next > max as u64 {
            proof {
                lemma_decimal_value_monotonic(s@, i + 1);
            }
            return None;
        }
        acc = next;
        assert(all_digits(s@.take(i + 1))) by {
            assert forall|j: int| 0 <= j < i + 1 implies is_digit(#[trigger] s@.take(i + 1)[j]) by {
                if j < i {
                    assert(s@.take(i + 1)[j] == s@.take(i as int)[j]);
                }
            }
        }
        i = i + 1;
    }
    assert(s@.take(i as int) =~= s@);
    Some(acc as u32)
}

/// The number written by `s`: decimal digits, with an optional `+` before
/// them, that write a number up to `max`.
pub open spec fn unsigned_of(s: Seq<char>, max: nat) -> Option<nat> {
    let digits = if s.len() > 0 && s[0] == '+' {
        s.skip(1)
    } else {
        s
    };
    match number_of(digits) {
        Some(n) => if n <= max {
            Some(n)
        } else {
            None
        },
        None => None,
    }
}

/// Reads `s` as an unsigned number no larger than `max`, with an optional
/// `+` in front.
pub fn parse_unsigned(s: &Vec<char>, max: u32) -> (r: Option<u32>)
    ensures
        r matches Some(v) ==> unsigned_of(s@, max as nat) == Some(v as nat),
        r is None ==> unsigned_of(s@, max as nat) is None,
{
    if s.len() > 0 && s[0] == '+' {
        let mut digits: Vec<char> = Vec::new();
        let mut i: usize = 1;
        while i < s.len()
            invariant
                1 <= i <= s.len(),
                digits@ == s@.subrange(1, i as int),
            decreases s.len() - i,
        {
            digits.push(s[i]);
            assert(s@.subrange(1, i + 1) =~= s@.subrange(1, i as int).push(s@[i as int]));
            i = i + 1;
        }
        assert(digits@ =~= s@.skip(1));
        parse_decimal(&digits, max)
    } else {
        parse_decimal(s, max)
    }
}

/// `String::push` of the standard library appends one character to the
/// string.
pub assume_specification[ String::push ](s: &mut String, c: char)
    ensures
        final(s)@ == old(s)@.push(c),
;

/// The string that holds the characters of `v`.
pub fn string_of(v: &Vec<char>) -> (s: String)
    ensures
        s@ == v@,
{
    let mut s = String::new();
    let mut i: usize = 0;
    while i < v.len()
        invariant
            i <= v.len(),
            s@ == v@.take(i as int),
        decreases v.len() - i,
    {
        s.push(v[i]);
        assert(v@.take(i + 1) =~= v@.take(i as int).push(v@[i as int]));
        i = i + 1;
    }
    assert(v@.take(i as int) =~= v@);
    s
}

/// The character of a decimal digit.
pub open spec fn digit_char(d: nat) -> char {
    (d + '0' as u32) as char
}

/// The decimal digits of `n`, without leading zeros.
pub open spec fn decimal_text(n: nat) -> Seq<char>
    decreases n,
{
    if n < 10 {
        seq![digit_char(n)]
    } else {
        decimal_text(n / 10).push(digit_char(n % 10))
    }
}

/// Appends the decimal digits of `n` to `out`.
pub fn push_decimal(out: &mut Vec<char>, n: u32)
    ensures
        final(out)@ == old(out)@ + decimal_text(n as nat),
    decreases n,
{
    if n >= 10 {
        push_decimal(out, n / 10);
    }
    out.push((48u8 + (n % 10) as u8) as char);
    assert(out@ =~= old(out)@ + decimal_text(n as nat));
}

/// Appends the characters of `s` to `out`.
pub fn push_str(out: &mut Vec<char>, s: &str)
    ensures
        final(out)@ == old(out)@ + s@,
{
    let chars = chars_of(s);
    let mut i: usize = 0;
    while i < chars.len()
        invariant
            i <= chars.len(),
            chars@ == s@,
            out@ == old(out)@ + s@.take(i as int),
        decreases chars.len() - i,
    {
        out.push(chars[i]);
        assert(s@.take(i + 1) =~= s@.take(i as int).push(s@[i as int]));
        i = i + 1;
    }
    assert(s@.take(i as int) =~= s@);
}

/// The decimal digits of a number are digits, at least one, without a
/// needless leading zero, and they write the number.
pub proof fn lemma_decimal_text_shape(n: nat)
    ensures
        decimal_text(n).len() >= 1,
        all_digits(decimal_text(n)),
        decimal_text(n).len() == 1 || decimal_text(n)[0] != '0',
        decimal_value(decimal_text(n)) == n,
        number_of(decimal_text(n)) == Some(n),
        n < 10 ==> decimal_text(n).len() == 1,
        10 <= n < 100 ==> decimal_text(n).len() == 2,
        100 <= n < 1000 ==> decimal_text(n).len() == 3,
    decreases n,
{
    let t = decimal_text(n);
    if n < 10 {
        assert(t.drop_last() =~= Seq::<char>::empty());
        assert(decimal_value(t) == decimal_value(t.drop_last()) * 10 + digit_value(t.last()));
    } else {
        lemma_decimal_text_shape(n / 10);
        let front = decimal_text(n / 10);
        assert(t.drop_last() =~= front);
        assert(t[0] == front[0]);
        assert forall|i: int| 0 <= i < t.len() implies is_digit(#[trigger] t[i]) by {
            if i < front.len() {
                assert(t[i] == front[i]);
            }
        }
        if front.len() == 1 {
            assert(front.drop_last() =~= Seq::<char>::empty());
            assert(decimal_value(front.drop_last()) == 0);
            assert(front.last() == front[0]);
            assert(decimal_value(front) == decimal_value(front.drop_last()) * 10 + digit_value(
                front.last(),
            ));
            assert(digit_value(front[0]) == n / 10);
        }
    }
}

/// Digits that start with a digit other than zero write a number that is
/// not zero.
pub proof fn lemma_decimal_value_positive(s: Seq<char>)
    requires
        s.len() >= 1,
        all_digits(s),
        s[0] != '0',
    ensures
        decimal_value(s) >= 1,
{
    lemma_decimal_value_monotonic(s, 1);
    let first = s.take(1);
    assert(first.drop_last() =~= Seq::<char>::empty());
    assert(first.last() == s[0]);
    assert(is_digit(s[0]));
    assert(decimal_value(first) == decimal_value(first.drop_last()) * 10 + digit_value(first.last()));
}

/// Digits without a needless leading zero are the decimal digits of the
/// number that they write: a number is written in one such way only.
pub proof fn lemma_decimal_text_unique(s: Seq<char>)
    requires
        s.len() >= 1,
        all_digits(s),
        s.len() == 1 || s[0] != '0',
    ensures
        decimal_text(decimal_value(s)) == s,
    decreases s.len(),
{
    let front = s.drop_last();
    let c = s.last();
    assert(is_digit(s[s.len() - 1]));
    if s.len() == 1 {
        assert(front =~= Seq::<char>::empty());
        assert(decimal_value(front) == 0);
        assert(decimal_value(s) == decimal_value(front) * 10 + digit_value(c));
        assert(digit_char(digit_value(c)) == c);
        assert(decimal_text(digit_value(c)) =~= seq![c]);
        assert(s =~= seq![c]);
    } else {
        assert forall|i: int| 0 <= i < front.len() implies is_digit(#[trigger] front[i]) by {
            assert(front[i] == s[i]);
        }
        assert(front[0] == s[0]);
        lemma_decimal_value_positive(front);
        lemma_decimal_text_unique(front);
        let v = decimal_value(s);
        assert(v == decimal_value(front) * 10 + digit_value(c));
        assert(v / 10 == decimal_value(front));
        assert(v % 10 == digit_value(c));
        assert(decimal_text(v) =~= s);
    }
}

} // verus!
