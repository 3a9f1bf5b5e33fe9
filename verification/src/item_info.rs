//! Item information shown beside each editor: the item number and the
//! size of its text.

use vstd::prelude::*;
use crate::text::chars_of;

verus! {

/// The line that starts at `start`, scanned up to `i`: the lines of
/// `s[start..]`, given that `s[start..i]` holds no newline.
pub open spec fn lines_from(s: Seq<char>, start: int, i: int) -> Seq<Seq<char>>
    decreases s.len() - i,
{
    if i < 0 || start < 0 || start > i {
        seq![]
    } else if i >= s.len() {
        if start < s.len() {
            seq![s.subrange(start, s.len() as int)]
        } else {
            seq![]
        }
    } else if s[i] == '\n' {
        seq![strip_cr(s.subrange(start, i))].add(lines_from(s, i + 1, i + 1))
    } else {
        lines_from(s, start, i + 1)
    }
}

/// A line ended by a newline loses a carriage return right before it.
pub open spec fn strip_cr(line: Seq<char>) -> Seq<char> {
    if line.len() > 0 && line.last() == '\r' {
        line.drop_last()
    } else {
        line
    }
}

/// The lines of `s` as `str::lines` yields them: the pieces between
/// newlines, each without a carriage return right before its newline; the
/// piece after the last newline counts only when it is not empty.
pub open spec fn lines_of(s: Seq<char>) -> Seq<Seq<char>> {
    lines_from(s, 0, 0)
}

/// The length of the longest line, or 0 when there is none.
pub open spec fn max_len(lines: Seq<Seq<char>>) -> nat
    decreases lines.len(),
{
    if lines.len() == 0 {
        0
    } else {
        let m = max_len(lines.drop_last());
        if lines.last().len() > m {
            lines.last().len()
        } else {
            m
        }
    }
}

/// The width of a text: the length of its longest line.
pub open spec fn text_width(s: Seq<char>) -> nat {
    max_len(lines_of(s))
}

/// The height of a text: its number of lines, and at least 1.
pub open spec fn text_height(s: Seq<char>) -> nat {
    if lines_of(s).len() == 0 {
        1
    } else {
        lines_of(s).len()
    }
}

proof fn lemma_max_len_push(lines: Seq<Seq<char>>, l: Seq<char>)
    ensures
        max_len(lines.push(l)) == if l.len() > max_len(lines) {
            l.len()
        } else {
            max_len(lines)
        },
{
    assert(lines.push(l).drop_last() =~= lines);
}

/// Width, height and number of characters of a text, in this order.
pub fn text_stats(text: &str) -> (stats: (usize, usize, usize))
    ensures
        stats.0 == text_width(text@),
        stats.1 == text_height(text@),
        stats.2 == text@.len(),
{
    let cs = chars_of(text);
    let n = cs.len();
    let mut start: usize = 0;
    let mut i: usize = 0;
    let mut count: usize = 0;
    let mut widest: usize = 0;
    let ghost mut done: Seq<Seq<char>> = seq![];
    while i < n
        invariant
            n == cs.len(),
            cs@ == text@,
            start <= i <= n,
            lines_of(cs@) == done + lines_from(cs@, start as int, i as int),
            count == done.len(),
            widest == max_len(done),
            count <= start,
            widest <= i,
        decreases n - i,
    {
        if cs[i] == '\n' {
            let mut w = i - start;
            if w > 0 && cs[i - 1] == '\r' {
                w = w - 1;
            }
            proof {
                let line = cs@.subrange(start as int, i as int);
                assert(strip_cr(line).len() == w);
                assert(seq![strip_cr(line)] + lines_from(cs@, i + 1, i + 1) == lines_from(
                    cs@,
                    start as int,
                    i as int,
                ));
                lemma_max_len_push(done, strip_cr(line));
                assert(done + lines_from(cs@, start as int, i as int) =~= done.push(strip_cr(line))
                    + lines_from(cs@, i + 1, i + 1));
                done = done.push(strip_cr(line));
            }
            if w > widest {
                widest = w;
            }
            count = count + 1;
            start = i + 1;
        }
        i = i + 1;
    }
    if start < n {
        let w = n - start;
        proof {
            let line = cs@.subrange(start as int, n as int);
            lemma_max_len_push(done, line);
            assert(lines_from(cs@, start as int, n as int) == seq![line]);
            assert(done + seq![line] =~= done.push(line));
            done = done.push(line);
        }
        if w > widest {
            widest = w;
        }
        count = count + 1;
    } else {
        assert(done + lines_from(cs@, start as int, n as int) =~= done);
    }
    if count == 0 {
        count = 1;
    }
    (widest, count, n)
}

/// The character of a decimal digit.
pub open spec fn digit_char(d: int) -> char {
    (d + 48) as char
}

/// A character between '0' and '9'.
pub open spec fn is_digit(c: char) -> bool {
    '0' <= c && c <= '9'
}

/// The decimal notation of `n`, without leading zeros.
pub open spec fn decimal(n: nat) -> Seq<char>
    decreases n,
{
    if n < 10 {
        seq![digit_char(n as int)]
    } else {
        decimal(n / 10).push(digit_char((n % 10) as int))
    }
}

/// The number that a sequence of decimal digits denotes.
pub open spec fn digits_value(d: Seq<char>) -> nat
    decreases d.len(),
{
    if d.len() == 0 {
        0
    } else {
        digits_value(d.drop_last()) * 10 + ((d.last() as int - 48) as nat)
    }
}

/// Every character of `d` is a decimal digit.
pub open spec fn all_digits(d: Seq<char>) -> bool {
    forall|k: int| 0 <= k < d.len() ==> is_digit(#[trigger] d[k])
}

/// What `str::parse::<usize>` makes of `s`: an optional leading '+', then
/// at least one decimal digit, and a value that fits.
pub open spec fn parse_usize(s: Seq<char>) -> Option<usize> {
    let d = if s.len() > 0 && s[0] == '+' {
        s.drop_first()
    } else {
        s
    };
    if d.len() > 0 && all_digits(d) && digits_value(d) <= usize::MAX {
        Some(digits_value(d) as usize)
    } else {
        None
    }
}

/// The text shown in an item's information label.
pub open spec fn item_info_of(item: nat, s: Seq<char>) -> Seq<char> {
    "No. "@ + decimal(item) + "\n横幅: "@ + decimal(text_width(s)) + "\n縦幅: "@ + decimal(
        text_height(s),
    ) + "\n文字数: "@ + decimal(s.len()) + "\n行数: "@ + decimal(text_height(s))
}

/// The item number read back from an information label: the number after
/// "No. " on its first line, or 0 when there is none.
pub open spec fn item_number_of(s: Seq<char>) -> nat {
    let ls = lines_of(s);
    if ls.len() == 0 {
        0
    } else {
        let l = ls[0];
        if l.len() >= 4 && l.take(4) == "No. "@ {
            match parse_usize(l.skip(4)) {
                Some(n) => n as nat,
                None => 0,
            }
        } else {
            0
        }
    }
}

fn digit(d: u64) -> (c: char)
    requires
        d < 10,
    ensures
        c == digit_char(d as int),
{
    match d {
        0 => '0',
        1 => '1',
        2 => '2',
        3 => '3',
        4 => '4',
        5 => '5',
        6 => '6',
        7 => '7',
        8 => '8',
        _ => '9',
    }
}

/// Appends the decimal notation of `n`.
pub fn push_decimal(s: &mut String, n: u64)
    ensures
        final(s)@ == old(s)@ + decimal(n as nat),
    decreases n,
{
    if n >= 10 {
        push_decimal(s, n / 10);
    }
    s.push(digit(n % 10));
    proof {
        if n < 10 {
            assert(decimal(n as nat) == seq![digit_char(n as int)]);
        }
    }
    assert(final(s)@ =~= old(s)@ + decimal(n as nat));
}

/// The information label of item `item` whose text is `text`.
pub fn item_info_text(item: usize, text: &str) -> (res: String)
    ensures
        res@ == item_info_of(item as nat, text@),
{
    let (width, height, count) = text_stats(text);
    let mut res = String::new();
    res.append("No. ");
    push_decimal(&mut res, item as u64);
    res.append("\n横幅: ");
    push_decimal(&mut res, width as u64);
    res.append("\n縦幅: ");
    push_decimal(&mut res, height as u64);
    res.append("\n文字数: ");
    push_decimal(&mut res, count as u64);
    res.append("\n行数: ");
    push_decimal(&mut res, height as u64);
    assert(res@ =~= item_info_of(item as nat, text@));
    res
}

proof fn lemma_lines_skip(s: Seq<char>, start: int, i: int, j: int)
    requires
        0 <= start <= i <= j <= s.len(),
        forall|k: int| i <= k < j ==> s[k] != '\n',
    ensures
        lines_from(s, start, i) == lines_from(s, start, j),
    decreases j - i,
{
    if i < j {
        lemma_lines_skip(s, start, i + 1, j);
    }
}

proof fn lemma_value_grows(d: Seq<char>, k: int)
    requires
        0 <= k <= d.len(),
    ensures
        digits_value(d) >= digits_value(d.take(k)),
    decreases d.len() - k,
{
    if k < d.len() {
        lemma_value_grows(d, k + 1);
        assert(d.take(k + 1).drop_last() =~= d.take(k));
    } else {
        assert(d.take(k) =~= d);
    }
}

/// Parses `cs[from..to]` as `str::parse::<usize>` does.
fn parse_usize_chars(cs: &Vec<char>, from: usize, to: usize) -> (r: Option<usize>)
    requires
        from <= to <= cs.len(),
    ensures
        r == parse_usize(cs@.subrange(from as int, to as int)),
{
    let ghost s = cs@.subrange(from as int, to as int);
    let mut first = from;
    if from < to && cs[from] == '+' {
        first = from + 1;
    }
    let ghost d = cs@.subrange(first as int, to as int);
    assert(d =~= if s.len() > 0 && s[0] == '+' { s.drop_first() } else { s });
    if first == to {
        return None;
    }
    let mut v: usize = 0;
    let mut j = first;
    while j < to
        invariant
            first <= j <= to <= cs.len(),
            from <= first,
            d == cs@.subrange(first as int, to as int),
            s == cs@.subrange(from as int, to as int),
            d == (if s.len() > 0 && s[0] == '+' { s.drop_first() } else { s }),
            d.len() > 0,
            all_digits(d.take(j - first)),
            v == digits_value(d.take(j - first)),
        decreases to - j,
    {
        let c = cs[j];
        if c < '0' || c > '9' {
            assert(d[j - first] == c);
            assert(!is_digit(d[j - first]));
            return None;
        }
        let dg: usize = if c == '0' { 0 } else if c == '1' { 1 } else if c == '2' { 2 } else if c
            == '3' { 3 } else if c == '4' { 4 } else if c == '5' { 5 } else if c == '6' { 6 } else if c
            == '7' { 7 } else if c == '8' { 8 } else { 9 };
        proof {
            let t = d.take(j + 1 - first);
            assert(t.drop_last() =~= d.take(j - first));
            assert(t.last() == c);
            assert(dg == c as int - 48);
            assert(digits_value(t) == v * 10 + dg);
            assert(all_digits(t));
        }
        match v.checked_mul(10) {
            Some(v10) => match v10.checked_add(dg) {
                Some(nv) => {
                    v = nv;
                },
                None => {
                    proof {
                        lemma_value_grows(d, j + 1 - first);
                    }
                    return None;
                },
            },
            None => {
                proof {
                    lemma_value_grows(d, j + 1 - first);
                }
                return None;
            },
        }
        j = j + 1;
    }
    assert(d.take(to - first) =~= d);
    Some(v)
}

/// Reads the item number back from an information label: the number after
/// "No. " on the first line, or 0 when there is none.
pub fn item_number_from_info_text(text: &str) -> (n: usize)
    ensures
        n == item_number_of(text@),
{
    let cs = chars_of(text);
    let len = cs.len();
    let mut e: usize = 0;
    while e < len && cs[e] != '\n'
        invariant
            e <= len == cs.len(),
            forall|k: int| 0 <= k < e ==> cs@[k] != '\n',
        decreases len - e,
    {
        e = e + 1;
    }
    proof {
        lemma_lines_skip(cs@, 0, 0, e as int);
    }
    if len == 0 {
        assert(lines_of(cs@) == Seq::<Seq<char>>::empty());
        return 0;
    }
    let mut end = e;
    if e < len && e > 0 && cs[e - 1] == '\r' {
        end = e - 1;
    }
    proof {
        let line = if e < len {
            strip_cr(cs@.subrange(0, e as int))
        } else {
            cs@.subrange(0, len as int)
        };
        assert(line =~= cs@.subrange(0, end as int));
        assert(lines_of(cs@).len() > 0 && lines_of(cs@)[0] == line);
    }
    if end >= 4 && cs[0] == 'N' && cs[1] == 'o' && cs[2] == '.' && cs[3] == ' ' {
        proof {
            reveal_strlit("No. ");
            assert(cs@.subrange(0, end as int).take(4) =~= "No. "@);
            assert(cs@.subrange(0, end as int).skip(4) =~= cs@.subrange(4, end as int));
        }
        match parse_usize_chars(&cs, 4, end) {
            Some(v) => v,
            None => 0,
        }
    } else {
        proof {
            reveal_strlit("No. ");
            if end >= 4 {
                let l = cs@.subrange(0, end as int);
                if l.take(4) == "No. "@ {
                    assert(l.take(4)[0] == 'N' && l.take(4)[1] == 'o' && l.take(4)[2] == '.'
                        && l.take(4)[3] == ' ');
                }
            }
        }
        0
    }
}

proof fn lemma_decimal(n: nat)
    ensures
        decimal(n).len() >= 1,
        all_digits(decimal(n)),
        digits_value(decimal(n)) == n,
    decreases n,
{
    if n >= 10 {
        lemma_decimal(n / 10);
        let d = decimal(n);
        assert(d.drop_last() =~= decimal(n / 10));
        assert(d.last() == digit_char((n % 10) as int));
        let r = (n % 10) as int;
        assert(digit_char(r) as int == r + 48);
        assert((n / 10) * 10 + n % 10 == n);
        assert(digits_value(d) == digits_value(d.drop_last()) * 10 + ((d.last() as int - 48) as nat));
        assert(all_digits(d)) by {
            assert forall|k: int| 0 <= k < d.len() implies is_digit(#[trigger] d[k]) by {
                if k < d.len() - 1 {
                    assert(d[k] == decimal(n / 10)[k]);
                }
            }
        }
    } else {
        assert(decimal(n).drop_last() =~= Seq::<char>::empty());
        assert(digit_char(n as int) as int == n + 48);
        let d = decimal(n);
        assert(digits_value(d) == digits_value(d.drop_last()) * 10 + ((d.last() as int - 48) as nat));
        assert(digits_value(d.drop_last()) == 0);
    }
}

proof fn lemma_number_line(item: usize, rest: Seq<char>)
    requires
        rest.len() > 0,
        rest[0] == '\n',
    ensures
        item_number_of("No. "@ + decimal(item as nat) + rest) == item as nat,
{
    reveal_strlit("No. ");
    lemma_decimal(item as nat);
    let dec = decimal(item as nat);
    let prefix = "No. "@ + dec;
    let info = prefix + rest;
    let e: int = prefix.len() as int;
    assert(info.subrange(0, e) =~= prefix);
    assert(info[e] == '\n');
    assert forall|k: int| 0 <= k < e implies info[k] != '\n' by {
        assert(info[k] == prefix[k]);
        if k >= 4 {
            assert(prefix[k] == dec[k - 4]);
            assert(is_digit(dec[k - 4]));
        }
    }
    lemma_lines_skip(info, 0, 0, e);
    assert(lines_from(info, 0, e) == seq![strip_cr(info.subrange(0, e))].add(
        lines_from(info, e + 1, e + 1),
    ));
    assert(prefix.last() == dec.last());
    assert(is_digit(dec[dec.len() - 1]));
    assert(strip_cr(prefix) == prefix);
    assert(lines_of(info)[0] == prefix);
    assert(prefix.take(4) =~= "No. "@);
    assert(prefix.skip(4) =~= dec);
    assert(is_digit(dec[0]));
}

/// The item number written into an information label is the one read back
/// from it.
pub proof fn lemma_item_number_roundtrip(item: usize, s: Seq<char>)
    ensures
        item_number_of(item_info_of(item as nat, s)) == item as nat,
{
    reveal_strlit("\n横幅: ");
    let rest = "\n横幅: "@ + decimal(text_width(s)) + "\n縦幅: "@ + decimal(text_height(s))
        + "\n文字数: "@ + decimal(s.len()) + "\n行数: "@ + decimal(text_height(s));
    assert(item_info_of(item as nat, s) =~= "No. "@ + decimal(item as nat) + rest);
    assert(rest[0] == '\n');
    lemma_number_line(item, rest);
}

} // verus!
