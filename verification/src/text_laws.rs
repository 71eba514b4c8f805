//! What holds of white space, lines, searching, order and numbers in texts.
use vstd::prelude::*;
use vstd::string::*;

use crate::text;

verus! {

// ---------------------------------------------------------------------------
// White space
// ---------------------------------------------------------------------------
/// Of the ASCII characters, the space and those from the tab to the carriage
/// return are white space, and no other: no letter, digit, bracket or sign is.
pub proof fn few_ascii_characters_are_white_space(c: char)
    requires
        (c as u32) < 0x80,
    ensures
        text::is_space(c) <==> c == ' ' || c == '\t' || c == '\n' || c == '\r' || c as u32 == 0xb
            || c as u32 == 0xc,
{
}

/// Beyond ASCII, white space is what Unicode says: the next line, the no-break
/// spaces, the spaces of typesetting, and the separators of lines and
/// paragraphs.
pub proof fn white_space_is_that_of_unicode(c: char)
    requires
        c as u32 >= 0x80,
    ensures
        text::is_space(c) <==> seq![
            0x85u32,
            0xa0u32,
            0x1680u32,
            0x2000u32,
            0x2001u32,
            0x2002u32,
            0x2003u32,
            0x2004u32,
            0x2005u32,
            0x2006u32,
            0x2007u32,
            0x2008u32,
            0x2009u32,
            0x200au32,
            0x2028u32,
            0x2029u32,
            0x202fu32,
            0x205fu32,
            0x3000u32,
        ].contains(c as u32),
{
    let all = seq![
        0x85u32,
        0xa0u32,
        0x1680u32,
        0x2000u32,
        0x2001u32,
        0x2002u32,
        0x2003u32,
        0x2004u32,
        0x2005u32,
        0x2006u32,
        0x2007u32,
        0x2008u32,
        0x2009u32,
        0x200au32,
        0x2028u32,
        0x2029u32,
        0x202fu32,
        0x205fu32,
        0x3000u32,
    ];
    let u = c as u32;
    assert(all[0] == 0x85 && all[1] == 0xa0 && all[2] == 0x1680 && all[14] == 0x2028 && all[15]
        == 0x2029 && all[16] == 0x202f && all[17] == 0x205f && all[18] == 0x3000);
    assert(all[3] == 0x2000 && all[4] == 0x2001 && all[5] == 0x2002 && all[6] == 0x2003 && all[7]
        == 0x2004 && all[8] == 0x2005 && all[9] == 0x2006 && all[10] == 0x2007 && all[11]
        == 0x2008 && all[12] == 0x2009 && all[13] == 0x200a);
    if all.contains(u) {
        let k = choose|k: int| 0 <= k < all.len() && all[k] == u;
        assert(text::is_space(c));
    }
}

proof fn lemma_trim_end(s: Seq<char>)
    ensures
        text::trailing_spaces(s) <= s.len(),
        forall|k: int|
            s.len() - text::trailing_spaces(s) <= k < s.len() ==> text::is_space(#[trigger] s[k]),
        text::trailing_spaces(s) < s.len() ==> !text::is_space(
            s[s.len() - text::trailing_spaces(s) - 1],
        ),
    decreases s.len(),
{
    if s.len() > 0 && text::is_space(s.last()) {
        let less = s.drop_last();
        lemma_trim_end(less);
        assert forall|k: int|
            s.len() - text::trailing_spaces(s) <= k < s.len() implies text::is_space(
            #[trigger] s[k],
        ) by {
            if k < less.len() {
                assert(less[k] == s[k]);
            }
        }
    }
}

proof fn lemma_trim_start(s: Seq<char>)
    ensures
        text::leading_spaces(s) <= s.len(),
        forall|k: int| 0 <= k < text::leading_spaces(s) ==> text::is_space(#[trigger] s[k]),
        text::leading_spaces(s) < s.len() ==> !text::is_space(s[text::leading_spaces(s) as int]),
    decreases s.len(),
{
    if s.len() > 0 && text::is_space(s[0]) {
        let rest = s.skip(1);
        lemma_trim_start(rest);
        assert forall|k: int| 0 <= k < text::leading_spaces(s) implies text::is_space(
            #[trigger] s[k],
        ) by {
            if k > 0 {
                assert(rest[k - 1] == s[k]);
            }
        }
    }
}

/// Trimming the end of a text takes white space away there, all of it, and
/// nothing else.
pub proof fn trimming_the_end_takes_white_space_only(s: Seq<char>)
    ensures
        ({
            let left = text::trim_end(s);
            &&& left.len() <= s.len()
            &&& left == s.take(left.len() as int)
            &&& forall|k: int| left.len() <= k < s.len() ==> text::is_space(#[trigger] s[k])
            &&& left.len() > 0 ==> !text::is_space(left.last())
        }),
{
    lemma_trim_end(s);
    assert(text::trim_end(s) =~= s.take(text::trim_end(s).len() as int));
}

/// Trimming the start of a text takes white space away there, all of it, and
/// nothing else.
pub proof fn trimming_the_start_takes_white_space_only(s: Seq<char>)
    ensures
        ({
            let left = text::trim_start(s);
            let gone = s.len() - left.len();
            &&& left.len() <= s.len()
            &&& left == s.skip(gone)
            &&& forall|k: int| 0 <= k < gone ==> text::is_space(#[trigger] s[k])
            &&& left.len() > 0 ==> !text::is_space(left[0])
        }),
{
    lemma_trim_start(s);
    assert(text::trim_start(s) =~= s.skip(s.len() - text::trim_start(s).len()));
}

/// A text is what trimming leaves of it with white space around it.
pub proof fn trimming_takes_white_space_only(s: Seq<char>) -> (gone: (Seq<char>, Seq<char>))
    ensures
        s == gone.0 + text::trim(s) + gone.1,
        forall|k: int| 0 <= k < gone.0.len() ==> text::is_space(#[trigger] gone.0[k]),
        forall|k: int| 0 <= k < gone.1.len() ==> text::is_space(#[trigger] gone.1[k]),
        text::trim(s).len() > 0 ==> !text::is_space(text::trim(s)[0]) && !text::is_space(
            text::trim(s).last(),
        ),
{
    let mid = text::trim_start(s);
    trimming_the_start_takes_white_space_only(s);
    trimming_the_end_takes_white_space_only(mid);
    let before = s.take(s.len() - mid.len());
    let after = mid.skip(text::trim(s).len() as int);
    assert(s =~= before + text::trim(s) + after);
    assert forall|k: int| 0 <= k < after.len() implies text::is_space(#[trigger] after[k]) by {
        assert(after[k] == mid[k + text::trim(s).len()]);
    }
    (before, after)
}

// ---------------------------------------------------------------------------
// Lines
// ---------------------------------------------------------------------------
/// The text holds no line feed.
pub open spec fn on_one_line(a: Seq<char>) -> bool {
    forall|i: int| 0 <= i < a.len() ==> #[trigger] a[i] != '\n'
}

proof fn lemma_line_end(a: Seq<char>, rest: Seq<char>)
    requires
        on_one_line(a),
    ensures
        text::line_end(a + seq!['\n'] + rest) == a.len(),
        text::line_end(a) == a.len(),
    decreases a.len(),
{
    let s = a + seq!['\n'] + rest;
    if a.len() == 0 {
        assert(s[0] == '\n');
    } else {
        assert(s[0] == a[0]);
        assert(a[0] != '\n');
        let less = a.skip(1);
        assert forall|i: int| 0 <= i < less.len() implies #[trigger] less[i] != '\n' by {
            assert(less[i] == a[i + 1]);
        }
        lemma_line_end(less, rest);
        assert(s.skip(1) =~= less + seq!['\n'] + rest);
    }
}

/// A line ends at a line feed, which is not part of it, nor is a carriage
/// return before it. What stands behind the last line feed is a line of its own
/// unless it is empty.
pub proof fn line_feeds_end_lines(a: Seq<char>, rest: Seq<char>)
    requires
        on_one_line(a),
        a.len() > 0 ==> a.last() != '\r',
    ensures
        text::lines(a + seq!['\n'] + rest) == seq![a] + text::lines(rest),
        text::lines(a + seq!['\r', '\n'] + rest) == seq![a] + text::lines(rest),
        a.len() > 0 ==> text::lines(a) == seq![a],
        text::lines(Seq::empty()) == Seq::<Seq<char>>::empty(),
{
    let s = a + seq!['\n'] + rest;
    lemma_line_end(a, rest);
    assert(s.take(a.len() as int) =~= a);
    assert(s.skip(a.len() as int + 1) =~= rest);
    let b = a.push('\r');
    let t = b + seq!['\n'] + rest;
    assert forall|i: int| 0 <= i < b.len() implies #[trigger] b[i] != '\n' by {
        if i < a.len() {
            assert(b[i] == a[i]);
        }
    }
    lemma_line_end(b, rest);
    assert(t.take(b.len() as int) =~= b);
    assert(t.skip(b.len() as int + 1) =~= rest);
    assert(b.drop_last() =~= a);
    assert(a + seq!['\r', '\n'] + rest =~= t);
}

/// Texts are joined one after the other, with the separator between two of
/// them and nowhere else.
pub proof fn joining_keeps_every_text(parts: Seq<Seq<char>>, sep: Seq<char>, p: Seq<char>)
    ensures
        text::joined(Seq::empty(), sep) == Seq::<char>::empty(),
        text::joined(seq![p], sep) == p,
        parts.len() > 0 ==> text::joined(parts.push(p), sep) == text::joined(parts, sep) + sep + p,
{
    assert(parts.push(p).drop_last() =~= parts);
}

proof fn lemma_joined_head(p: Seq<char>, rest: Seq<Seq<char>>, sep: Seq<char>)
    requires
        rest.len() > 0,
    ensures
        text::joined(seq![p] + rest, sep) == p + sep + text::joined(rest, sep),
    decreases rest.len(),
{
    let all = seq![p] + rest;
    reveal_with_fuel(text::joined, 2);
    assert(all.drop_last() =~= seq![p] + rest.drop_last());
    assert(all.last() == rest.last());
    if rest.len() > 1 {
        lemma_joined_head(p, rest.drop_last(), sep);
        assert(text::joined(all, sep) =~= p + sep + text::joined(rest, sep));
    } else {
        assert(rest.drop_last() =~= Seq::empty());
        assert(seq![p] + rest.drop_last() =~= seq![p]);
        assert(text::joined(all, sep) =~= p + sep + rest[0]);
    }
}

/// Lines without line feeds and without carriage returns at their ends are read
/// back from the text that they are joined to, with a line feed behind each.
pub proof fn joined_lines_are_read_back(lines: Seq<Seq<char>>)
    requires
        lines.len() > 0,
        forall|i: int|
            0 <= i < lines.len() ==> on_one_line(#[trigger] lines[i]) && (lines[i].len() > 0
                ==> lines[i].last() != '\r'),
    ensures
        text::lines(text::joined(lines, seq!['\n']) + seq!['\n']) == lines,
    decreases lines.len(),
{
    let nl = seq!['\n'];
    let a = lines[0];
    let rest = lines.skip(1);
    if rest.len() == 0 {
        line_feeds_end_lines(a, Seq::empty());
        assert(lines =~= seq![a]);
        assert(a + nl + Seq::<char>::empty() =~= a + nl);
        assert(seq![a] + Seq::<Seq<char>>::empty() =~= lines);
    } else {
        assert forall|i: int| 0 <= i < rest.len() implies on_one_line(#[trigger] rest[i]) && (
        rest[i].len() > 0 ==> rest[i].last() != '\r') by {
            assert(rest[i] == lines[i + 1]);
        }
        joined_lines_are_read_back(rest);
        lemma_joined_head(a, rest, nl);
        assert(seq![a] + rest =~= lines);
        line_feeds_end_lines(a, text::joined(rest, nl) + nl);
        assert(text::joined(lines, nl) + nl =~= a + nl + (text::joined(rest, nl) + nl));
    }
}

// ---------------------------------------------------------------------------
// Searching
// ---------------------------------------------------------------------------
/// A text holds another one where it is that one with something around it, and
/// starts with it where nothing stands before it.
pub proof fn held_texts_are_parts(s: Seq<char>, p: Seq<char>)
    ensures
        text::contains_text(s, p) <==> exists|a: Seq<char>, b: Seq<char>|
            s == #[trigger] (a + p + b),
        text::starts_with(s, p) <==> exists|b: Seq<char>| s == #[trigger] (p + b),
{
    if text::contains_text(s, p) {
        let at = choose|at: int| #[trigger] text::has_at(s, p, at);
        let a = s.take(at);
        let b = s.skip(at + p.len());
        assert(s =~= a + p + b) by {
            assert forall|k: int| 0 <= k < p.len() implies s[at + k] == p[k] by {
                assert(s.subrange(at, at + p.len())[k] == s[at + k]);
            }
        }
    }
    if exists|a: Seq<char>, b: Seq<char>| s == #[trigger] (a + p + b) {
        let (a, b) = choose|a: Seq<char>, b: Seq<char>| s == #[trigger] (a + p + b);
        assert(s.subrange(a.len() as int, (a.len() + p.len()) as int) =~= p);
        assert(text::has_at(s, p, a.len() as int));
    }
    if text::starts_with(s, p) {
        let b = s.skip(p.len() as int);
        assert(s =~= p + b) by {
            assert forall|k: int| 0 <= k < p.len() implies s[k] == p[k] by {
                assert(s.subrange(0, p.len() as int)[k] == s[k]);
            }
        }
    }
    if exists|b: Seq<char>| s == #[trigger] (p + b) {
        let b = choose|b: Seq<char>| s == #[trigger] (p + b);
        assert(s.subrange(0, p.len() as int) =~= p);
    }
}

// ---------------------------------------------------------------------------
// Order
// ---------------------------------------------------------------------------
/// Texts are ordered by the first character in which they differ; a text
/// stands before every longer one that starts with it.
pub proof fn the_first_difference_orders(
    start: Seq<char>,
    c: char,
    d: char,
    rest: Seq<char>,
    other: Seq<char>,
)
    requires
        (c as u32) < (d as u32),
    ensures
        text::precedes(start + seq![c] + rest, start + seq![d] + other),
        !text::precedes(start + seq![d] + other, start + seq![c] + rest),
        text::precedes(start, start + seq![c] + rest),
        !text::precedes(start + seq![c] + rest, start),
        !text::precedes(start, start),
    decreases start.len(),
{
    let a = start + seq![c] + rest;
    let b = start + seq![d] + other;
    if start.len() > 0 {
        let less = start.skip(1);
        the_first_difference_orders(less, c, d, rest, other);
        assert(a.skip(1) =~= less + seq![c] + rest);
        assert(b.skip(1) =~= less + seq![d] + other);
        assert(a[0] == start[0] && b[0] == start[0]);
    } else {
        assert(a[0] == c && b[0] == d);
    }
}

// ---------------------------------------------------------------------------
// Numbers
// ---------------------------------------------------------------------------
/// A number below ten is written as its digit, and any other as its tenth part
/// with the last digit behind it.
pub proof fn numbers_are_written_in_decimal(n: nat)
    ensures
        n < 10 ==> text::decimal(n) == seq![('0' as u32 + n) as char],
        n >= 10 ==> text::decimal(n) == text::decimal(n / 10) + text::decimal(n % 10),
{
    if n >= 10 {
        assert(text::decimal(n) =~= text::decimal(n / 10) + text::decimal(n % 10));
    }
}

/// A decimal digit behind a number makes it ten times as large, and adds its
/// value. Any other character makes it no number.
pub proof fn numbers_are_read_digit_by_digit(t: Seq<char>, c: char)
    ensures
        '0' <= c && c <= '9' ==> text::number_in(seq![c]) == Some(
            (c as int - '0' as int) as nat,
        ),
        t.len() > 0 && t != seq!['+'] ==> text::number_in(t.push(c)) == (if '0' <= c && c <= '9' {
            match text::number_in(t) {
                Some(n) => Some((n * 10 + (c as int - '0' as int)) as nat),
                None => None,
            }
        } else {
            None
        }),
        text::number_in(Seq::empty()) is None,
{
    reveal_with_fuel(text::digits_value, 2);
    assert(seq![c].drop_last() =~= Seq::empty());
    let more = t.push(c);
    assert(more.drop_last() =~= t);
    if t.len() > 1 && t[0] == '+' {
        assert(more.skip(1).drop_last() =~= t.skip(1));
        assert(more.skip(1).last() == c);
    } else if t.len() == 1 && t[0] == '+' {
        assert(t =~= seq!['+']);
    }
}

/// In lower case a capital ASCII letter is the small one, and every other ASCII
/// character is what it was.
pub proof fn lower_case_changes_capital_letters_only(t: Seq<char>, i: int)
    requires
        text::is_ascii(t),
        0 <= i < t.len(),
    ensures
        text::lowercase(t).len() == t.len(),
        'A' <= t[i] && t[i] <= 'Z' ==> text::lowercase(t)[i] as u32 == t[i] as u32 + 32,
        !('A' <= t[i] && t[i] <= 'Z') ==> text::lowercase(t)[i] == t[i],
{
}

} // verus!
