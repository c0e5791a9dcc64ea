//! Interface metrics: reading the table that the system prints of its
//! network interfaces, and writing the commands that set a metric.
//!
//! The table has three header lines. Each further line that has at least
//! five columns describes one interface: the second column is its metric,
//! and the fifth column onwards is its name.

use vstd::prelude::*;
use crate::text::{
    chars_of,
    decimal_text,
    join,
    parse_unsigned,
    pieces_view,
    push_decimal,
    push_str,
    split,
    split_chars,
    string_of,
    unsigned_of,
};

verus! {

/// Whether `c` is white space.
pub open spec fn is_space(c: char) -> bool {
    let v = c as u32;
    (0x09 <= v <= 0x0D) || v == 0x20 || v == 0x85 || v == 0xA0 || v == 0x1680 || (0x2000 <= v
        <= 0x200A) || v == 0x2028 || v == 0x2029 || v == 0x202F || v == 0x205F || v == 0x3000
}

/// The length of the run of characters at the start of `s` that are not
/// white space.
pub open spec fn word_len(s: Seq<char>) -> nat
    decreases s.len(),
{
    if s.len() == 0 || is_space(s[0]) {
        0
    } else {
        1 + word_len(s.drop_first())
    }
}

/// A run is no longer than the text, and not empty where the text starts
/// with a character that is not white space.
pub proof fn lemma_word_len_bounds(s: Seq<char>)
    ensures
        word_len(s) <= s.len(),
        s.len() > 0 && !is_space(s[0]) ==> word_len(s) > 0,
    decreases s.len(),
{
    if s.len() > 0 && !is_space(s[0]) {
        lemma_word_len_bounds(s.drop_first());
    }
}

/// The words of `s`: its longest runs of characters that are not white
/// space, in order.
pub open spec fn words(s: Seq<char>) -> Seq<Seq<char>>
    decreases s.len(),
{
    if s.len() == 0 {
        Seq::<Seq<char>>::empty()
    } else if is_space(s[0]) {
        words(s.drop_first())
    } else {
        proof {
            lemma_word_len_bounds(s);
        }
        seq![s.take(word_len(s) as int)] + words(s.skip(word_len(s) as int))
    }
}

/// The words joined by single blanks.
pub open spec fn join_words(w: Seq<Seq<char>>) -> Seq<char> {
    join(w, ' ')
}

/// The metric written by `s`, or 0 where `s` writes no number that fits 32
/// bits.
pub open spec fn metric_of(s: Seq<char>) -> u32 {
    match unsigned_of(s, 0xFFFF_FFFF) {
        Some(n) => n as u32,
        None => 0u32,
    }
}

/// The interface that a line of the table describes, if it describes one.
pub open spec fn row_of(line: Seq<char>) -> Option<(Seq<char>, u32)> {
    let w = words(line);
    if w.len() >= 5 {
        Some((join_words(w.skip(4)), metric_of(w[1])))
    } else {
        None
    }
}

/// The interfaces that the lines describe, in order.
pub open spec fn rows_of(lines: Seq<Seq<char>>) -> Seq<(Seq<char>, u32)>
    decreases lines.len(),
{
    if lines.len() == 0 {
        Seq::<(Seq<char>, u32)>::empty()
    } else {
        match row_of(lines.last()) {
            Some(row) => rows_of(lines.drop_last()).push(row),
            None => rows_of(lines.drop_last()),
        }
    }
}

/// The lines of a table after its three header lines.
pub open spec fn body_lines(lines: Seq<Seq<char>>) -> Seq<Seq<char>> {
    if lines.len() <= 3 {
        Seq::<Seq<char>>::empty()
    } else {
        lines.skip(3)
    }
}

/// The interfaces that a table describes: those of its lines after the
/// three header lines.
pub open spec fn table_of(report: Seq<char>) -> Seq<(Seq<char>, u32)> {
    rows_of(body_lines(split(report, '\n')))
}

/// The names and metrics held by a vector of rows.
pub open spec fn rows_view(v: Seq<(String, u32)>) -> Seq<(Seq<char>, u32)> {
    Seq::new(v.len(), |i: int| (v[i].0@, v[i].1))
}

fn space(c: char) -> (r: bool)
    ensures
        r == is_space(c),
{
    let v: u32 = c as u32;
    (0x09 <= v && v <= 0x0D) || v == 0x20 || v == 0x85 || v == 0xA0 || v == 0x1680 || (0x2000 <= v
        && v <= 0x200A) || v == 0x2028 || v == 0x2029 || v == 0x202F || v == 0x205F || v == 0x3000
}

proof fn lemma_word_len(s: Seq<char>, n: int)
    requires
        0 <= n <= s.len(),
        forall|j: int| 0 <= j < n ==> !is_space(s[j]),
        n == s.len() || is_space(s[n]),
    ensures
        word_len(s) == n,
    decreases n,
{
    if n > 0 {
        let rest = s.drop_first();
        assert forall|j: int| 0 <= j < n - 1 implies !is_space(rest[j]) by {
            assert(rest[j] == s[j + 1]);
        }
        if n < s.len() {
            assert(rest[n - 1] == s[n]);
        }
        lemma_word_len(rest, n - 1);
    }
}

/// Splits `s` into its words.
pub fn split_words(s: &Vec<char>) -> (out: Vec<Vec<char>>)
    ensures
        pieces_view(out@) == words(s@),
{
    let mut out: Vec<Vec<char>> = Vec::new();
    let mut i: usize = 0;
    assert(s@.skip(0) =~= s@);
    assert(pieces_view(out@) + words(s@) =~= words(s@));
    while i < s.len()
        invariant
            i <= s.len(),
            words(s@) == pieces_view(out@) + words(s@.skip(i as int)),
        decreases s.len() - i,
    {
        let ghost rest = s@.skip(i as int);
        let ghost before = pieces_view(out@);
        if space(s[i]) {
            assert(rest.drop_first() =~= s@.skip(i + 1));
            i = i + 1;
        } else {
            let mut word: Vec<char> = Vec::new();
            let mut j: usize = i;
            while j < s.len() && !space(s[j])
                invariant
                    i <= j <= s.len(),
                    word@ == s@.subrange(i as int, j as int),
                    forall|k: int| i <= k < j ==> !is_space(s@[k]),
                decreases s.len() - j,
            {
                word.push(s[j]);
                assert(s@.subrange(i as int, j + 1) =~= s@.subrange(i as int, j as int).push(
                    s@[j as int],
                ));
                j = j + 1;
            }
            proof {
                assert forall|k: int| 0 <= k < j - i implies !is_space(rest[k]) by {
                    assert(rest[k] == s@[i + k]);
                }
                lemma_word_len(rest, j - i);
                assert(rest.take(j - i) =~= word@);
                assert(rest.skip(j - i) =~= s@.skip(j as int));
            }
            out.push(word);
            assert(pieces_view(out@) =~= before + seq![rest.take(j - i)]);
            i = j;
        }
    }
    assert(s@.skip(i as int) =~= Seq::<char>::empty());
    assert(pieces_view(out@) + Seq::<Seq<char>>::empty() =~= pieces_view(out@));
    out
}

/// Joins the words from position `from` on by single blanks.
fn join_from(w: &Vec<Vec<char>>, from: usize) -> (out: Vec<char>)
    requires
        from <= w.len(),
    ensures
        out@ == join_words(pieces_view(w@).skip(from as int)),
{
    let ghost tail = pieces_view(w@).skip(from as int);
    let mut out: Vec<char> = Vec::new();
    let mut i: usize = from;
    while i < w.len()
        invariant
            from <= i <= w.len(),
            tail == pieces_view(w@).skip(from as int),
            out@ == join_words(tail.take(i - from)),
        decreases w.len() - i,
    {
        let ghost front = tail.take(i - from);
        let ghost next = tail.take(i + 1 - from);
        proof {
            assert(next.drop_last() =~= front);
            assert(next.last() == w@[i as int]@);
        }
        if i > from {
            out.push(' ');
        }
        let word = &w[i];
        let ghost start = out@;
        let mut k: usize = 0;
        while k < word.len()
            invariant
                k <= word.len(),
                out@ == start + word@.take(k as int),
            decreases word.len() - k,
        {
            out.push(word[k]);
            assert(word@.take(k + 1) =~= word@.take(k as int).push(word@[k as int]));
            k = k + 1;
        }
        assert(word@.take(k as int) =~= word@);
        proof {
            if i > from {
                assert(out@ =~= join_words(front) + seq![' '] + word@);
            } else {
                assert(out@ =~= word@);
                assert(next.len() == 1);
            }
        }
        i = i + 1;
    }
    assert(tail.take(i - from) =~= tail);
    out
}

fn parse_metric(s: &Vec<char>) -> (m: u32)
    ensures
        m == metric_of(s@),
{
    match parse_unsigned(s, u32::MAX) {
        Some(v) => v,
        None => 0,
    }
}

/// Reads the table that `netsh interface ipv4 show interfaces` prints and
/// returns the name and the metric of each interface in it.
pub fn get_all_interfaces_metrics(report: &str) -> (interfaces: Vec<(String, u32)>)
    ensures
        rows_view(interfaces@) == table_of(report@),
{
    let chars = chars_of(report);
    let lines = split_chars(&chars, '\n');
    let ghost all = split(report@, '\n');
    let mut interfaces: Vec<(String, u32)> = Vec::new();
    assert(all.len() == lines.len());
    if lines.len() <= 3 {
        assert(rows_view(interfaces@) =~= table_of(report@));
        return interfaces;
    }
    assert(all.skip(3).take(0) =~= Seq::<Seq<char>>::empty());
    let mut i: usize = 3;
    while i < lines.len()
        invariant
            3 <= i <= lines.len(),
            all == split(report@, '\n'),
            pieces_view(lines@) == all,
            rows_view(interfaces@) == rows_of(all.skip(3).take(i - 3)),
        decreases lines.len() - i,
    {
        let ghost before = rows_view(interfaces@);
        proof {
            assert(all.len() == lines.len());
            assert(all.skip(3).take(i + 1 - 3).drop_last() =~= all.skip(3).take(i - 3));
            assert(all.skip(3).take(i + 1 - 3).last() == lines@[i as int]@);
        }
        let parts = split_words(&lines[i]);
        if parts.len() >= 5 {
            assert(pieces_view(parts@)[1] == parts@[1]@);
            let name = string_of(&join_from(&parts, 4));
            let metric = parse_metric(&parts[1]);
            interfaces.push((name, metric));
            assert(rows_view(interfaces@) =~= before.push(row_of(lines@[i as int]@)->0));
        }
        i = i + 1;
    }
    assert(all.len() == lines.len());
    assert(all.skip(3).take(i - 3) =~= all.skip(3));
    interfaces
}

/// The two command lines that set the metric of an interface, for IPv4 and
/// for IPv6.
#[derive(Clone, Debug, PartialEq, Eq)]
pub struct MetricCommands {
    pub ipv4: String,
    pub ipv6: String,
}

/// The command line that sets the metric of the interface `name` for the
/// address family `family`.
pub open spec fn metric_command(family: Seq<char>, name: Seq<char>, metric: u32) -> Seq<char> {
    "chcp 65001 >nul && netsh interface "@ + family + " set interface \""@ + name + "\" metric="@
        + decimal_text(metric as nat)
}

fn build_metric_command(family: &str, interface_name: &str, metric: u32) -> (cmd: String)
    ensures
        cmd@ == metric_command(family@, interface_name@, metric),
{
    let mut out: Vec<char> = Vec::new();
    push_str(&mut out, "chcp 65001 >nul && netsh interface ");
    push_str(&mut out, family);
    push_str(&mut out, " set interface \"");
    push_str(&mut out, interface_name);
    push_str(&mut out, "\" metric=");
    push_decimal(&mut out, metric);
    assert(out@ =~= metric_command(family@, interface_name@, metric));
    string_of(&out)
}

/// Writes the commands that set the metric of the interface
/// `interface_name`, first for IPv4, then for IPv6.
pub fn set_interface_metric(interface_name: &str, metric: u32) -> (commands: MetricCommands)
    ensures
        commands.ipv4@ == metric_command("ipv4"@, interface_name@, metric),
        commands.ipv6@ == metric_command("ipv6"@, interface_name@, metric),
{
    MetricCommands {
        ipv4: build_metric_command("ipv4", interface_name, metric),
        ipv6: build_metric_command("ipv6", interface_name, metric),
    }
}

} // verus!
