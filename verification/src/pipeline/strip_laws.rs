//! What comment stripping takes away, and what it leaves.
use vstd::prelude::*;
use vstd::string::*;

use crate::patterns;
use crate::pipeline::regex_compress;
use crate::pipeline::regex_compress::ScanView;
use crate::text;
use crate::text_laws;

verus! {

// ---------------------------------------------------------------------------
// The code of a line
// ---------------------------------------------------------------------------
proof fn lemma_comment_in(line: Seq<char>, c: char, from: int)
    requires
        0 <= from,
    ensures
        regex_compress::comment_from(line, c, from) matches Some(at) ==> from <= at < line.len(),
    decreases line.len() - from,
{
    if from < line.len() && !regex_compress::bare_at(line, c, from) {
        lemma_comment_in(line, c, from + 1);
    }
}

proof fn lemma_slashes_in(line: Seq<char>, from: int)
    requires
        0 <= from,
    ensures
        regex_compress::slashes_from(line, from) matches Some(at) ==> from <= at < line.len(),
    decreases line.len() - from,
{
    if from < line.len() && !regex_compress::slashes_at(line, from) {
        lemma_slashes_in(line, from + 1);
    }
}

/// Stripping a line leaves all of the code before its comment: the line up to
/// the place where the comment starts, white space at the end apart. It leaves
/// nothing only where nothing but white space stands before the comment. A line
/// without a comment, and one that has to stay, is left whole.
pub proof fn code_before_a_comment_stays(line: Seq<char>)
    ensures
        ({
            let left = regex_compress::stripped(line, false);
            let indent = line.len() - text::trim_start(line).len();
            match regex_compress::comment_start(text::trim(line)) {
                Some(at) => {
                    &&& 0 <= at < text::trim(line).len()
                    &&& indent + text::trim(line).len() <= line.len()
                    &&& left.len() <= indent + at
                    &&& left == line.take(left.len() as int)
                    &&& forall|k: int|
                        left.len() <= k < indent + at ==> text::is_space(#[trigger] line[k])
                    &&& left.len() > 0 ==> !text::is_space(left.last())
                },
                None => left == line,
            }
        }),
        regex_compress::stripped(line, true) == line,
{
    let t = text::trim(line);
    text::lemma_leading_spaces_bound(line);
    text::lemma_trailing_spaces_bound(text::trim_start(line));
    text_laws::trimming_the_start_takes_white_space_only(line);
    lemma_comment_in(t, '#', 0);
    lemma_slashes_in(t, 0);
    let indent = line.len() - text::trim_start(line).len();
    match regex_compress::comment_start(t) {
        Some(at) => {
            let code = line.take(indent + at);
            text_laws::trimming_the_end_takes_white_space_only(code);
            let left = regex_compress::stripped(line, false);
            assert(left =~= line.take(left.len() as int));
            assert forall|k: int| left.len() <= k < indent + at implies text::is_space(
                #[trigger] line[k],
            ) by {
                if at > 0 {
                    assert(code[k] == line[k]);
                }
            }
        },
        None => {},
    }
}

// ---------------------------------------------------------------------------
// Strings
// ---------------------------------------------------------------------------
/// The text holds neither quotes nor backslashes.
pub open spec fn unquoted(t: Seq<char>) -> bool {
    forall|i: int|
        0 <= i < t.len() ==> #[trigger] t[i] != '\'' && t[i] != '"' && t[i] != '\\'
}

/// The text can stand between two quotes.
pub open spec fn quotable(t: Seq<char>, quote: char) -> bool {
    forall|i: int| 0 <= i < t.len() ==> #[trigger] t[i] != quote && t[i] != '\\'
}

/// The text does not hold the character.
pub open spec fn lacks(t: Seq<char>, c: char) -> bool {
    forall|i: int| 0 <= i < t.len() ==> #[trigger] t[i] != c
}

/// A scan that stands outside strings.
pub open spec fn outside() -> ScanView {
    ScanView { single: false, double: false, escaped: false }
}

/// A scan that stands inside a string.
pub open spec fn inside(quote: char) -> ScanView {
    ScanView { single: quote == '\'', double: quote == '"', escaped: false }
}

proof fn lemma_scan_unquoted(t: Seq<char>)
    requires
        unquoted(t),
    ensures
        regex_compress::scan(t) == outside(),
    decreases t.len(),
{
    if t.len() > 0 {
        let less = t.drop_last();
        assert forall|i: int| 0 <= i < less.len() implies #[trigger] less[i] != '\'' && less[i]
            != '"' && less[i] != '\\' by {
            assert(less[i] == t[i]);
        }
        lemma_scan_unquoted(less);
        assert(t.last() == t[t.len() - 1]);
    }
}

/// Behind a text that ends outside strings a scan starts anew.
proof fn lemma_scan_anew(a: Seq<char>, b: Seq<char>)
    requires
        regex_compress::scan(a) == outside(),
    ensures
        regex_compress::scan(a + b) == regex_compress::scan(b),
    decreases b.len(),
{
    if b.len() == 0 {
        assert(a + b =~= a);
    } else {
        lemma_scan_anew(a, b.drop_last());
        assert((a + b).drop_last() =~= a + b.drop_last());
    }
}

proof fn lemma_scan_inside(quote: char, s: Seq<char>)
    requires
        quote == '\'' || quote == '"',
        quotable(s, quote),
    ensures
        regex_compress::scan(seq![quote] + s) == inside(quote),
    decreases s.len(),
{
    let all = seq![quote] + s;
    if s.len() == 0 {
        reveal_with_fuel(regex_compress::scan, 2);
        assert(all =~= seq![quote]);
        assert(all.drop_last() =~= Seq::empty());
    } else {
        let less = s.drop_last();
        assert forall|i: int| 0 <= i < less.len() implies #[trigger] less[i] != quote && less[i]
            != '\\' by {
            assert(less[i] == s[i]);
        }
        lemma_scan_inside(quote, less);
        assert(all.drop_last() =~= seq![quote] + less);
        assert(all.last() == s[s.len() - 1]);
    }
}

/// A quote opens a string, and the same quote closes it. The other quote does
/// neither in between.
pub proof fn quotes_open_and_close_strings(a: Seq<char>, quote: char, s: Seq<char>)
    requires
        unquoted(a),
        quote == '\'' || quote == '"',
        quotable(s, quote),
    ensures
        regex_compress::scan(a) == outside(),
        regex_compress::scan(a + seq![quote] + s) == inside(quote),
        regex_compress::scan(a + seq![quote] + s + seq![quote]) == outside(),
{
    lemma_scan_unquoted(a);
    lemma_scan_inside(quote, s);
    lemma_scan_anew(a, seq![quote] + s);
    assert(a + seq![quote] + s =~= a + (seq![quote] + s));
    let all = a + seq![quote] + s + seq![quote];
    assert(all.drop_last() =~= a + seq![quote] + s);
}

/// A backslash takes the meaning of the character behind it.
pub proof fn backslashes_hide_one_character(a: Seq<char>, c: char)
    requires
        !regex_compress::scan(a).escaped,
    ensures
        regex_compress::scan(a + seq!['\\', c]) == regex_compress::scan(a),
        regex_compress::scan(a + seq!['\\']).escaped,
{
    let one = a + seq!['\\'];
    let two = a + seq!['\\', c];
    assert(one.drop_last() =~= a);
    assert(one.last() == '\\');
    assert(two.drop_last() =~= one);
    assert(two.last() == c);
    assert(regex_compress::scan(one) == regex_compress::scanned(regex_compress::scan(a), '\\'));
    assert(regex_compress::scan(two) == regex_compress::scanned(regex_compress::scan(one), c));
}

proof fn lemma_comment_shifted(a: Seq<char>, b: Seq<char>, c: char, from: int)
    requires
        regex_compress::scan(a) == outside(),
        0 <= from <= b.len(),
    ensures
        regex_compress::comment_from(a + b, c, a.len() + from) == match regex_compress::comment_from(
            b,
            c,
            from,
        ) {
            Some(at) => Some(a.len() + at),
            None => None,
        },
    decreases b.len() - from,
{
    if from < b.len() {
        lemma_scan_anew(a, b.take(from));
        assert((a + b).take(a.len() + from) =~= a + b.take(from));
        assert((a + b)[a.len() + from] == b[from]);
        lemma_comment_shifted(a, b, c, from + 1);
    }
}

proof fn lemma_comment_passes(line: Seq<char>, c: char, from: int, to: int)
    requires
        0 <= from <= to <= line.len(),
        forall|k: int| from <= k < to ==> !#[trigger] regex_compress::bare_at(line, c, k),
    ensures
        regex_compress::comment_from(line, c, from) == regex_compress::comment_from(line, c, to),
    decreases to - from,
{
    if from < to {
        assert(!regex_compress::bare_at(line, c, from));
        lemma_comment_passes(line, c, from + 1, to);
    }
}

/// What stands in a string does not count: the comment of a line with a string
/// in it is that of what stands behind the string.
pub proof fn strings_hold_no_comment(
    a: Seq<char>,
    quote: char,
    s: Seq<char>,
    b: Seq<char>,
    c: char,
)
    requires
        unquoted(a) && lacks(a, c),
        quote == '\'' || quote == '"',
        quotable(s, quote),
        c != '\'' && c != '"' && c != '\\',
    ensures
        regex_compress::comment_from(a + seq![quote] + s + seq![quote] + b, c, 0)
            == match regex_compress::comment_from(b, c, 0) {
            Some(at) => Some(a.len() + s.len() + 2 + at),
            None => None,
        },
{
    let start = a + seq![quote] + s + seq![quote];
    let line = start + b;
    quotes_open_and_close_strings(a, quote, s);
    assert forall|k: int| 0 <= k < start.len() implies !#[trigger] regex_compress::bare_at(
        line,
        c,
        k,
    ) by {
        assert(line[k] == start[k]);
        if k < a.len() {
            assert(start[k] == a[k]);
        } else if k > a.len() && k < start.len() - 1 {
            let part = s.take(k - a.len() - 1);
            assert forall|i: int| 0 <= i < part.len() implies #[trigger] part[i] != quote && part[i]
                != '\\' by {
                assert(part[i] == s[i]);
            }
            quotes_open_and_close_strings(a, quote, part);
            assert(line.take(k) =~= a + seq![quote] + part);
        } else {
            assert(start[k] == quote);
        }
    }
    lemma_comment_passes(line, c, 0, start.len() as int);
    lemma_comment_shifted(start, b, c, 0);
}

/// A character behind a backslash starts no comment.
pub proof fn escaped_characters_start_no_comment(a: Seq<char>, x: char, b: Seq<char>, c: char)
    requires
        unquoted(a) && lacks(a, c),
        c != '\'' && c != '"' && c != '\\',
    ensures
        regex_compress::comment_from(a + seq!['\\', x] + b, c, 0)
            == match regex_compress::comment_from(b, c, 0) {
            Some(at) => Some(a.len() + 2 + at),
            None => None,
        },
{
    let start = a + seq!['\\', x];
    let line = start + b;
    lemma_scan_unquoted(a);
    backslashes_hide_one_character(a, x);
    assert forall|k: int| 0 <= k < start.len() implies !#[trigger] regex_compress::bare_at(
        line,
        c,
        k,
    ) by {
        assert(line[k] == start[k]);
        if k < a.len() {
            assert(start[k] == a[k]);
        } else if k == a.len() {
            assert(start[k] == '\\');
        } else {
            assert(line.take(k) =~= a + seq!['\\']);
        }
    }
    lemma_comment_passes(line, c, 0, start.len() as int);
    lemma_comment_shifted(start, b, c, 0);
}

/// Without quotes and backslashes before it, the first hash of a line starts a
/// comment, whatever follows it; a line without a hash has no such comment.
pub proof fn the_first_hash_starts_a_comment(a: Seq<char>, b: Seq<char>)
    requires
        unquoted(a) && lacks(a, '#'),
    ensures
        regex_compress::comment_from(a + seq!['#'] + b, '#', 0) == Some(a.len() as int),
        regex_compress::comment_from(a, '#', 0) is None,
{
    let line = a + seq!['#'] + b;
    lemma_scan_unquoted(a);
    assert forall|k: int| 0 <= k < a.len() implies !#[trigger] regex_compress::bare_at(
        line,
        '#',
        k,
    ) by {
        assert(line[k] == a[k]);
    }
    lemma_comment_passes(line, '#', 0, a.len() as int);
    assert(line.take(a.len() as int) =~= a);
    assert forall|k: int| 0 <= k < a.len() implies !#[trigger] regex_compress::bare_at(
        a,
        '#',
        k,
    ) by {
        assert(a[k] != '#');
    }
    lemma_comment_passes(a, '#', 0, a.len() as int);
}

// ---------------------------------------------------------------------------
// Two slashes
// ---------------------------------------------------------------------------
proof fn lemma_slashes_shifted(a: Seq<char>, b: Seq<char>, from: int)
    requires
        regex_compress::scan(a) == outside(),
        a.len() > 0 && b.len() > 0 && b[0] == '/' ==> a.last() != ':',
        0 <= from <= b.len(),
    ensures
        regex_compress::slashes_from(a + b, a.len() + from) == match regex_compress::slashes_from(
            b,
            from,
        ) {
            Some(at) => Some(a.len() + at),
            None => None,
        },
    decreases b.len() - from,
{
    if from < b.len() {
        let line = a + b;
        lemma_scan_anew(a, b.take(from));
        assert(line.take(a.len() + from) =~= a + b.take(from));
        assert(line[a.len() + from] == b[from]);
        if from + 1 < b.len() {
            assert(line[a.len() + from + 1] == b[from + 1]);
        }
        if from > 0 {
            assert(line[a.len() + from - 1] == b[from - 1]);
        } else if a.len() > 0 {
            assert(line[a.len() - 1] == a.last());
        }
        lemma_slashes_shifted(a, b, from + 1);
    }
}

proof fn lemma_slashes_pass(line: Seq<char>, from: int, to: int)
    requires
        0 <= from <= to <= line.len(),
        forall|k: int| from <= k < to ==> !#[trigger] regex_compress::slashes_at(line, k),
    ensures
        regex_compress::slashes_from(line, from) == regex_compress::slashes_from(line, to),
    decreases to - from,
{
    if from < to {
        assert(!regex_compress::slashes_at(line, from));
        lemma_slashes_pass(line, from + 1, to);
    }
}

/// Slashes in a string do not count: the comment of two slashes of a line with
/// a string in it is that of what stands behind the string.
pub proof fn strings_hold_no_slashes(a: Seq<char>, quote: char, s: Seq<char>, b: Seq<char>)
    requires
        unquoted(a) && lacks(a, '/'),
        quote == '\'' || quote == '"',
        quotable(s, quote),
    ensures
        regex_compress::slashes_from(a + seq![quote] + s + seq![quote] + b, 0)
            == match regex_compress::slashes_from(b, 0) {
            Some(at) => Some(a.len() + s.len() + 2 + at),
            None => None,
        },
{
    let start = a + seq![quote] + s + seq![quote];
    let line = start + b;
    quotes_open_and_close_strings(a, quote, s);
    assert forall|k: int| 0 <= k < start.len() implies !#[trigger] regex_compress::slashes_at(
        line,
        k,
    ) by {
        assert(line[k] == start[k]);
        if k < a.len() {
            assert(start[k] == a[k]);
        } else if k > a.len() && k < start.len() - 1 {
            let part = s.take(k - a.len() - 1);
            assert forall|i: int| 0 <= i < part.len() implies #[trigger] part[i] != quote && part[i]
                != '\\' by {
                assert(part[i] == s[i]);
            }
            quotes_open_and_close_strings(a, quote, part);
            assert(line.take(k) =~= a + seq![quote] + part);
        } else {
            assert(start[k] == quote);
        }
    }
    lemma_slashes_pass(line, 0, start.len() as int);
    lemma_slashes_shifted(start, b, 0);
}

/// Without quotes, backslashes and slashes before them, two slashes start a
/// comment, whatever follows them, unless a colon stands right before them: the
/// slashes of a URL do not. A line without slashes has no such comment.
pub proof fn the_first_slashes_start_a_comment(a: Seq<char>, b: Seq<char>)
    requires
        unquoted(a) && lacks(a, '/'),
    ensures
        !(a.len() > 0 && a.last() == ':') ==> regex_compress::slashes_from(
            a + seq!['/', '/'] + b,
            0,
        ) == Some(a.len() as int),
        !(b.len() > 0 && b[0] == '/') ==> regex_compress::slashes_from(
            a + seq![':', '/', '/'] + b,
            0,
        ) == match regex_compress::slashes_from(b, 0) {
            Some(at) => Some(a.len() + 3 + at),
            None => None,
        },
        regex_compress::slashes_from(a, 0) is None,
{
    lemma_scan_unquoted(a);
    let line = a + seq!['/', '/'] + b;
    assert forall|k: int| 0 <= k < a.len() implies !#[trigger] regex_compress::slashes_at(
        line,
        k,
    ) by {
        assert(line[k] == a[k]);
    }
    lemma_slashes_pass(line, 0, a.len() as int);
    assert(line.take(a.len() as int) =~= a);
    assert(line[a.len() as int] == '/' && line[a.len() as int + 1] == '/');
    if a.len() > 0 {
        assert(line[a.len() - 1] == a.last());
    }
    assert forall|k: int| 0 <= k < a.len() implies !#[trigger] regex_compress::slashes_at(
        a,
        k,
    ) by {
        assert(a[k] != '/');
    }
    lemma_slashes_pass(a, 0, a.len() as int);
    if !(b.len() > 0 && b[0] == '/') {
        let start = a + seq![':', '/', '/'];
        let url = start + b;
        assert forall|i: int| 0 <= i < start.len() implies #[trigger] start[i] != '\'' && start[i]
            != '"' && start[i] != '\\' by {
            if i < a.len() {
                assert(start[i] == a[i]);
            }
        }
        lemma_scan_unquoted(start);
        assert forall|k: int| 0 <= k < start.len() implies !#[trigger] regex_compress::slashes_at(
            url,
            k,
        ) by {
            assert(url[k] == start[k]);
            if k < a.len() {
                assert(url[k] == a[k]);
            } else if k == a.len() + 2 && b.len() > 0 {
                assert(url[k + 1] == b[0]);
            } else if k == a.len() + 1 {
                assert(url[k - 1] == ':');
            }
        }
        lemma_slashes_pass(url, 0, start.len() as int);
        lemma_slashes_shifted(start, b, 0);
    }
}

/// A line has a comment if and only if a hash or two slashes start one. Where
/// both do, the first of them does, but for slashes with a value before them:
/// those divide, and the hash starts the comment.
pub proof fn hashes_and_slashes_start_comments(line: Seq<char>, j: int)
    ensures
        ({
            let hash = regex_compress::comment_from(line, '#', 0);
            let slashes = regex_compress::slashes_from(line, 0);
            let start = regex_compress::comment_start(line);
            &&& slashes is None ==> start == hash
            &&& hash is None ==> start == slashes
            &&& match (hash, slashes) {
                (Some(x), Some(y)) => {
                &&& x < y ==> start == hash
                &&& y < x && (forall|k: int| 0 <= k < y ==> text::is_space(#[trigger] line[k]))
                    ==> start == slashes
                &&& y < x && 0 <= j < y && !text::is_space(line[j]) && (forall|k: int|
                    j < k < y ==> text::is_space(#[trigger] line[k])) ==> start == if (line[j]
                    as u32) >= 0x80 || ('a' <= line[j] && line[j] <= 'z') || ('A' <= line[j]
                    && line[j] <= 'Z') || ('0' <= line[j] && line[j] <= '9') || line[j] == '_'
                    || line[j] == ')' || line[j] == ']' || line[j] == '\'' || line[j] == '"' {
                    hash
                } else {
                    slashes
                }
                },
                _ => true,
            }
        }),
{
    lemma_comment_in(line, '#', 0);
    lemma_slashes_in(line, 0);
    match (regex_compress::comment_from(line, '#', 0), regex_compress::slashes_from(line, 0)) {
        (Some(x), Some(y)) => {
            let before = line.take(y);
            let t = text::trim_end(before);
            text_laws::trimming_the_end_takes_white_space_only(before);
            assert(regex_compress::can_divide(before) == (t.len() > 0
                && regex_compress::ends_value(t.last())));
            if t.len() > 0 {
                assert(t.last() == line[t.len() - 1]);
                assert(!text::is_space(line[t.len() - 1]));
                if 0 <= j < y && !text::is_space(line[j]) {
                    if j >= t.len() {
                        assert(before[j] == line[j]);
                    } else if j < t.len() - 1 {
                        assert(!text::is_space(line[t.len() - 1]));
                    }
                }
            } else if 0 <= j < y {
                assert(before[j] == line[j]);
            }
        },
        _ => {},
    }
}

// ---------------------------------------------------------------------------
// Texts
// ---------------------------------------------------------------------------
/// What is left of a line: all of one that says `TODO`, `noqa` or the like, and
/// what stripping leaves of any other.
pub open spec fn line_left(line: Seq<char>) -> Seq<char> {
    if patterns::matches_in(
        r"(?i)type:\s*ignore|noqa|eslint-disable|@ts-ignore|TODO|FIXME|HACK|SAFETY|#!"@,
        line,
    ) {
        line
    } else {
        regex_compress::stripped(line, false)
    }
}

/// Comments go line by line: every line keeps its place, and a line that says
/// `TODO`, `noqa` or the like stays whole.
pub proof fn comments_go_line_by_line(lines: Seq<Seq<char>>)
    ensures
        regex_compress::stripped_lines(lines) == if lines.len() == 0 {
            Seq::empty()
        } else {
            text::joined(lines.map_values(|line: Seq<char>| line_left(line)), seq!['\n']) + seq![
                '\n',
            ]
        },
    decreases lines.len(),
{
    let left = lines.map_values(|line: Seq<char>| line_left(line));
    if lines.len() > 0 {
        let less = lines.drop_last();
        comments_go_line_by_line(less);
        let before = less.map_values(|line: Seq<char>| line_left(line));
        assert(left.drop_last() =~= before);
        assert(left.last() == line_left(lines.last()));
        assert(line_left(lines.last()) == regex_compress::stripped_line(lines.last()));
        if less.len() > 0 {
            assert(text::joined(left, seq!['\n']) == text::joined(before, seq!['\n']) + seq!['\n']
                + left.last());
        } else {
            assert(regex_compress::stripped_lines(less) =~= Seq::empty());
            assert(text::joined(left, seq!['\n']) == left[0]);
        }
        assert(regex_compress::stripped_lines(lines) =~= text::joined(left, seq!['\n']) + seq![
            '\n',
        ]);
    }
}

/// What is left of a block comment: all of one that starts with `/**`, and
/// nothing of any other.
pub open spec fn comment_left(comment: Seq<char>) -> Seq<char> {
    if comment.len() >= 3 && comment[0] == '/' && comment[1] == '*' && comment[2] == '*' {
        comment
    } else {
        Seq::empty()
    }
}

proof fn lemma_comment_left(comment: Seq<char>)
    ensures
        regex_compress::kept_comment(comment) == comment_left(comment),
{
    reveal_strlit("/**");
    let mark = "/**"@;
    if text::starts_with(comment, mark) {
        assert(comment.subrange(0, 3)[0] == comment[0] && comment.subrange(0, 3)[1] == comment[1]
            && comment.subrange(0, 3)[2] == comment[2]);
    }
    if comment.len() >= 3 && comment[0] == '/' && comment[1] == '*' && comment[2] == '*' {
        assert(comment.subrange(0, 3) =~= mark);
    }
}

/// Comment stripping leaves the stripped lines of a text. Of the block comments
/// in them, JSDoc stays and any other goes; what stands around them stays. The
/// text ends with a line feed that was added only where it did before.
pub proof fn only_comments_go(content: Seq<char>)
    ensures
        ({
            let t = regex_compress::stripped_lines(text::lines(content));
            let around = patterns::gaps(r"/\*[\s\S]*?\*/"@, t);
            let comments = patterns::captures(r"/\*[\s\S]*?\*/"@, t).map_values(
                |groups: Seq<Option<Seq<char>>>| groups[0]->0,
            );
            let w = patterns::woven(
                around,
                comments.map_values(|comment: Seq<char>| comment_left(comment)),
            );
            let whole = content.len() > 0 && content.last() == '\n';
            let left = regex_compress::without_comments(content);
            &&& left == if !whole && w.len() > 0 && w.last() == '\n' {
                w.drop_last()
            } else {
                w
            }
            &&& comments.len() == 0 && around == seq![t] ==> w == t
            &&& (forall|i: int|
                0 <= i < comments.len() ==> comment_left(#[trigger] comments[i]).len() == 0)
                && around.len() == comments.len() + 1 ==> w == text::concatenated(around)
        }),
{
    let t = regex_compress::stripped_lines(text::lines(content));
    let around = patterns::gaps(r"/\*[\s\S]*?\*/"@, t);
    let comments = patterns::captures(r"/\*[\s\S]*?\*/"@, t).map_values(
        |groups: Seq<Option<Seq<char>>>| groups[0]->0,
    );
    let left = comments.map_values(|comment: Seq<char>| comment_left(comment));
    let kept = patterns::matches_of(r"/\*[\s\S]*?\*/"@, t).map_values(
        |m: Seq<char>| regex_compress::kept_comment(m),
    );
    assert(comments =~= patterns::matches_of(r"/\*[\s\S]*?\*/"@, t));
    assert forall|i: int| 0 <= i < left.len() implies #[trigger] left[i] == kept[i] by {
        lemma_comment_left(comments[i]);
    }
    assert(left =~= kept);
    if comments.len() == 0 {
        assert(left =~= Seq::empty());
    }
    if (forall|i: int|
        0 <= i < comments.len() ==> comment_left(#[trigger] comments[i]).len() == 0)
        && around.len() == comments.len() + 1 {
        assert forall|i: int| 0 <= i < left.len() implies #[trigger] left[i] == Seq::<char>::empty() by {
            assert(comment_left(comments[i]).len() == 0);
            assert(left[i] =~= Seq::<char>::empty());
        }
        lemma_woven_with_nothing(around, left);
        assert(around.take(left.len() as int + 1) =~= around);
    }
}

proof fn lemma_woven_with_nothing(around: Seq<Seq<char>>, kept: Seq<Seq<char>>)
    requires
        around.len() >= kept.len() + 1,
        forall|i: int| 0 <= i < kept.len() ==> #[trigger] kept[i] == Seq::<char>::empty(),
    ensures
        patterns::woven(around, kept) == text::concatenated(around.take(kept.len() as int + 1)),
    decreases kept.len(),
{
    let now = around.take(kept.len() as int + 1);
    assert(now.drop_last() =~= around.take(kept.len() as int));
    if kept.len() > 0 {
        let less = kept.drop_last();
        assert forall|i: int| 0 <= i < less.len() implies #[trigger] less[i] == Seq::<char>::empty() by {
            assert(less[i] == kept[i]);
        }
        lemma_woven_with_nothing(around, less);
        assert(patterns::woven(around, kept) =~= text::concatenated(now));
    } else {
        reveal_with_fuel(text::concatenated, 2);
        assert(now.drop_last() =~= Seq::empty());
        assert(text::concatenated(now) =~= around[0]);
    }
}

/// Texts are woven by turns, beginning and ending with one that stands around
/// the others.
pub proof fn weaving_takes_turns(
    around: Seq<Seq<char>>,
    parts: Seq<Seq<char>>,
    part: Seq<char>,
    gap: Seq<char>,
)
    requires
        around.len() == parts.len() + 1,
    ensures
        patterns::woven(seq![gap], Seq::empty()) == gap,
        patterns::woven(around.push(gap), parts.push(part)) == patterns::woven(around, parts) + part
            + gap,
{
    lemma_woven_prefix(around, gap, parts);
    assert(parts.push(part).drop_last() =~= parts);
}

proof fn lemma_woven_prefix(around: Seq<Seq<char>>, gap: Seq<char>, parts: Seq<Seq<char>>)
    requires
        around.len() >= parts.len() + 1,
    ensures
        patterns::woven(around.push(gap), parts) == patterns::woven(around, parts),
    decreases parts.len(),
{
    if parts.len() > 0 {
        lemma_woven_prefix(around, gap, parts.drop_last());
    }
}

} // verus!
