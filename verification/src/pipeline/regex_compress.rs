//! Structural compression: docstrings, comments, white space, stack traces and
//! repeated code blocks.
use std::collections::HashSet;
use vstd::prelude::*;
use vstd::string::*;
use vstd::utf8::*;

use crate::hashing;
use crate::metrics;
use crate::metrics::{CompressionEvent, EventView};
use crate::patterns;
use crate::text;
use crate::tokenizer;
use crate::tokenizer::Tokenizer;

verus! {

// ---------------------------------------------------------------------------
// Patterns
// ---------------------------------------------------------------------------
/// A Python docstring below a `def` or `class` line, which is the first group.
pub const PYTHON_DOCSTRING: &'static str =
    r#"(?m)((?:^|\n)\s*(?:def |class |async def )[^\n]*:\s*\n\s*)(?:"""[\s\S]*?"""|'''[\s\S]*?''')"#;

/// A triple-quoted string that stands alone.
pub const PYTHON_MODULE_DOCSTRING: &'static str = r#"(?m)^("""[\s\S]*?"""|'''[\s\S]*?''')\s*$"#;

pub const JSDOC: &'static str = r"/\*\*[\s\S]*?\*/";

pub const RUST_DOC_COMMENT: &'static str = r"(?m)^\s*///.*$|^\s*//!.*$";

/// A block comment, JSDoc or not.
pub const BLOCK_COMMENT: &'static str = r"/\*[\s\S]*?\*/";

/// What a comment that has to stay holds.
pub const PRESERVE_COMMENT: &'static str =
    r"(?i)type:\s*ignore|noqa|eslint-disable|@ts-ignore|TODO|FIXME|HACK|SAFETY|#!";

pub const MULTIPLE_BLANK_LINES: &'static str = r"\n\s*\n(\s*\n)+";

pub const TRAILING_WHITESPACE: &'static str = r"(?m)[ \t]+$";

pub const ZERO_WIDTH: &'static str = r"[\x{FEFF}\x{200B}\x{200C}\x{200D}]";

pub const PYTHON_TRACEBACK_LINE: &'static str = r#"^\s*File ".*", line \d+"#;

pub const NODE_STACK_LINE: &'static str = r"^\s+at .+\(.+:\d+:\d+\)";

pub const PYTHON_TRACEBACK_HEADER: &'static str = r"^Traceback \(most recent call last\):";

/// A fenced code block; what it fences is the first group.
pub const FENCED_CODE_BLOCK: &'static str = r"(?ms)^```[^\n]*\n(.*?)^```";

/// The compiled patterns.
pub struct Patterns {
    python_docstring: regex::Regex,
    python_module_docstring: regex::Regex,
    jsdoc: regex::Regex,
    rust_doc_comment: regex::Regex,
    block_comment: regex::Regex,
    preserve_comment: regex::Regex,
    multiple_blank_lines: regex::Regex,
    trailing_whitespace: regex::Regex,
    zero_width: regex::Regex,
    python_traceback_line: regex::Regex,
    node_stack_line: regex::Regex,
    python_traceback_header: regex::Regex,
    fenced_code_block: regex::Regex,
}

/// Every pattern is a regular expression.
pub open spec fn all_compile() -> bool {
    &&& patterns::compiles(PYTHON_DOCSTRING@)
    &&& patterns::compiles(PYTHON_MODULE_DOCSTRING@)
    &&& patterns::compiles(JSDOC@)
    &&& patterns::compiles(RUST_DOC_COMMENT@)
    &&& patterns::compiles(BLOCK_COMMENT@)
    &&& patterns::compiles(PRESERVE_COMMENT@)
    &&& patterns::compiles(MULTIPLE_BLANK_LINES@)
    &&& patterns::compiles(TRAILING_WHITESPACE@)
    &&& patterns::compiles(ZERO_WIDTH@)
    &&& patterns::compiles(PYTHON_TRACEBACK_LINE@)
    &&& patterns::compiles(NODE_STACK_LINE@)
    &&& patterns::compiles(PYTHON_TRACEBACK_HEADER@)
    &&& patterns::compiles(FENCED_CODE_BLOCK@)
}

impl Patterns {
    #[verifier::type_invariant]
    spec fn well_formed(self) -> bool {
        &&& patterns::pattern_of(self.python_docstring) == PYTHON_DOCSTRING@
        &&& patterns::pattern_of(self.python_module_docstring) == PYTHON_MODULE_DOCSTRING@
        &&& patterns::pattern_of(self.jsdoc) == JSDOC@
        &&& patterns::pattern_of(self.rust_doc_comment) == RUST_DOC_COMMENT@
        &&& patterns::pattern_of(self.block_comment) == BLOCK_COMMENT@
        &&& patterns::pattern_of(self.preserve_comment) == PRESERVE_COMMENT@
        &&& patterns::pattern_of(self.multiple_blank_lines) == MULTIPLE_BLANK_LINES@
        &&& patterns::pattern_of(self.trailing_whitespace) == TRAILING_WHITESPACE@
        &&& patterns::pattern_of(self.zero_width) == ZERO_WIDTH@
        &&& patterns::pattern_of(self.python_traceback_line) == PYTHON_TRACEBACK_LINE@
        &&& patterns::pattern_of(self.node_stack_line) == NODE_STACK_LINE@
        &&& patterns::pattern_of(self.python_traceback_header) == PYTHON_TRACEBACK_HEADER@
        &&& patterns::pattern_of(self.fenced_code_block) == FENCED_CODE_BLOCK@
    }

    /// Compiles the patterns.
    pub fn new() -> (r: Option<Self>)
        ensures
            r is Some <==> all_compile(),
    {
        Some(
            Patterns {
                python_docstring: patterns::compile(PYTHON_DOCSTRING)?,
                python_module_docstring: patterns::compile(PYTHON_MODULE_DOCSTRING)?,
                jsdoc: patterns::compile(JSDOC)?,
                rust_doc_comment: patterns::compile(RUST_DOC_COMMENT)?,
                block_comment: patterns::compile(BLOCK_COMMENT)?,
                preserve_comment: patterns::compile(PRESERVE_COMMENT)?,
                multiple_blank_lines: patterns::compile(MULTIPLE_BLANK_LINES)?,
                trailing_whitespace: patterns::compile(TRAILING_WHITESPACE)?,
                zero_width: patterns::compile(ZERO_WIDTH)?,
                python_traceback_line: patterns::compile(PYTHON_TRACEBACK_LINE)?,
                node_stack_line: patterns::compile(NODE_STACK_LINE)?,
                python_traceback_header: patterns::compile(PYTHON_TRACEBACK_HEADER)?,
                fenced_code_block: patterns::compile(FENCED_CODE_BLOCK)?,
            },
        )
    }
}

// ---------------------------------------------------------------------------
// Stages
// ---------------------------------------------------------------------------
/// The text that a stage leaves, and what it says of it. There is an event
/// only where the stage took tokens away.
pub struct StageView {
    pub text: Seq<char>,
    pub event: Option<EventView>,
}

/// A stage that turns `before` into `after`; nothing comes of it where the
/// tokens of one of them cannot be counted.
pub open spec fn stage(
    before: Seq<char>,
    after: Seq<char>,
    name: Seq<char>,
    reason: Seq<char>,
) -> Option<StageView> {
    match (tokenizer::tokens(before), tokenizer::tokens(after)) {
        (Some(b), Some(a)) => Some(
            StageView {
                text: after,
                event: if b > a {
                    Some(EventView { before: b, after: a, stage: name, reason })
                } else {
                    None
                },
            },
        ),
        _ => None,
    }
}

/// What a stage made of a text.
pub struct Staged {
    pub text: String,
    pub event: Option<CompressionEvent>,
}

impl View for Staged {
    type V = StageView;

    open spec fn view(&self) -> StageView {
        StageView {
            text: self.text@,
            event: match self.event {
                Some(e) => Some(e@),
                None => None,
            },
        }
    }
}

pub open spec fn staged_view(r: Option<Staged>) -> Option<StageView> {
    match r {
        Some(s) => Some(s@),
        None => None,
    }
}

/// The event of a stage, if it took tokens away.
pub fn stage_event(tokens_before: usize, tokens_after: usize, name: &str, reason: &str) -> (r:
    Option<CompressionEvent>)
    ensures
        match r {
            Some(e) => tokens_before > tokens_after && e@ == (EventView {
                before: tokens_before as nat,
                after: tokens_after as nat,
                stage: name@,
                reason: reason@,
            }),
            None => tokens_before <= tokens_after,
        },
{
    if tokens_before > tokens_after {
        Some(
            CompressionEvent {
                tokens_before,
                tokens_after,
                stage_name: text::owned(name),
                reason: text::owned(reason),
            },
        )
    } else {
        None
    }
}

/// Measures a stage that turned `before` into `after`.
pub(crate) fn measure(before: &str, after: String, name: &str, reason: &str, tokenizer: &Tokenizer) -> (r:
    Option<Staged>)
    ensures
        staged_view(r) == stage(before@, after@, name@, reason@),
{
    let tokens_before: usize = match tokenizer.count_tokens(before) {
        Some(n) => n,
        None => {
            return None;
        },
    };
    let tokens_after: usize = match tokenizer.count_tokens(after.as_str()) {
        Some(n) => n,
        None => {
            return None;
        },
    };
    let event = stage_event(tokens_before, tokens_after, name, reason);
    Some(Staged { text: after, event })
}

// ---------------------------------------------------------------------------
// Docstrings
// ---------------------------------------------------------------------------
/// A text without docstrings and doc comments.
pub open spec fn without_docstrings(t: Seq<char>) -> Seq<char> {
    let t1 = patterns::replaced(PYTHON_DOCSTRING@, t, "$1"@);
    let t2 = patterns::replaced(PYTHON_MODULE_DOCSTRING@, t1, ""@);
    let t3 = patterns::replaced(JSDOC@, t2, ""@);
    patterns::replaced(RUST_DOC_COMMENT@, t3, ""@)
}

/// Removes docstrings from Python, JavaScript, TypeScript and Rust code.
fn remove_docstrings(content: &str, patterns: &Patterns, tokenizer: &Tokenizer) -> (r: Option<
    Staged,
>)
    ensures
        staged_view(r) == stage(
            content@,
            without_docstrings(content@),
            "B1_docstrings"@,
            "Removed docstrings and doc-comments"@,
        ),
{
    proof {
        use_type_invariant(patterns);
    }
    let t1 = patterns::replace_all(&patterns.python_docstring, content, "$1");
    let t2 = patterns::replace_all(&patterns.python_module_docstring, t1.as_str(), "");
    let t3 = patterns::replace_all(&patterns.jsdoc, t2.as_str(), "");
    let t4 = patterns::replace_all(&patterns.rust_doc_comment, t3.as_str(), "");
    measure(content, t4, "B1_docstrings", "Removed docstrings and doc-comments", tokenizer)
}

// ---------------------------------------------------------------------------
// Comments
// ---------------------------------------------------------------------------
/// Where a scan of a line stands: inside a string or not, and behind a
/// backslash or not.
pub struct ScanView {
    pub single: bool,
    pub double: bool,
    pub escaped: bool,
}

/// The state of a scan once `c` has come.
pub open spec fn scanned(s: ScanView, c: char) -> ScanView {
    if s.escaped {
        ScanView { escaped: false, ..s }
    } else if c == '\\' {
        ScanView { escaped: true, ..s }
    } else if c == '\'' && !s.double {
        ScanView { single: !s.single, ..s }
    } else if c == '"' && !s.single {
        ScanView { double: !s.double, ..s }
    } else {
        s
    }
}

/// The state of a scan of a line.
pub open spec fn scan(line: Seq<char>) -> ScanView
    decreases line.len(),
{
    if line.len() == 0 {
        ScanView { single: false, double: false, escaped: false }
    } else {
        scanned(scan(line.drop_last()), line.last())
    }
}

/// Quotes and backslashes never start a comment.
pub open spec fn is_quoting(c: char) -> bool {
    c == '\'' || c == '"' || c == '\\'
}

/// The character at `i` is `c`, outside strings and not behind a backslash.
pub open spec fn bare_at(line: Seq<char>, c: char, i: int) -> bool {
    let s = scan(line.take(i));
    0 <= i < line.len() && line[i] == c && !is_quoting(c) && !s.single && !s.double && !s.escaped
}

/// A comment of two slashes starts at `i`: a colon before them makes them part
/// of a URL.
pub open spec fn slashes_at(line: Seq<char>, i: int) -> bool {
    bare_at(line, '/', i) && i + 1 < line.len() && line[i + 1] == '/' && !(i > 0 && line[i - 1]
        == ':')
}

/// The first place from `from` on where a comment starts with `c`.
pub open spec fn comment_from(line: Seq<char>, c: char, from: int) -> Option<int>
    decreases line.len() - from,
{
    if from >= line.len() {
        None
    } else if bare_at(line, c, from) {
        Some(from)
    } else {
        comment_from(line, c, from + 1)
    }
}

/// The first place from `from` on where a comment of two slashes starts.
pub open spec fn slashes_from(line: Seq<char>, from: int) -> Option<int>
    decreases line.len() - from,
{
    if from >= line.len() {
        None
    } else if slashes_at(line, from) {
        Some(from)
    } else {
        slashes_from(line, from + 1)
    }
}

/// The code of a line whose comment starts at `at` behind its indentation.
pub open spec fn code_before(line: Seq<char>, at: int) -> Seq<char> {
    text::trim_end(line.take(text::leading_spaces(line) + at))
}

/// A value can end with the character: a letter, a digit, an underscore, a
/// closing bracket, or a quote.
pub open spec fn ends_value(c: char) -> bool {
    ||| 'a' <= c && c <= 'z'
    ||| 'A' <= c && c <= 'Z'
    ||| '0' <= c && c <= '9'
    ||| c == '_' || c == ')' || c == ']' || c == '\'' || c == '"'
    ||| c as u32 >= 0x80
}

/// Two slashes behind the text can divide: a value stands before them.
pub open spec fn can_divide(before: Seq<char>) -> bool {
    let t = text::trim_end(before);
    t.len() > 0 && ends_value(t.last())
}

/// Where the comment of a line starts. A hash starts it, unless two slashes
/// before it do. They do not where they can divide: a line with a hash may be
/// Python, which divides so.
pub open spec fn comment_start(line: Seq<char>) -> Option<int> {
    match (comment_from(line, '#', 0), slashes_from(line, 0)) {
        (Some(hash), Some(slashes)) => Some(
            if slashes < hash && !can_divide(line.take(slashes)) {
                slashes
            } else {
                hash
            },
        ),
        (Some(hash), None) => Some(hash),
        (None, slashes) => slashes,
    }
}

/// A line without its comment. A line that has to stay is kept whole.
pub open spec fn stripped(line: Seq<char>, preserve: bool) -> Seq<char> {
    if preserve {
        line
    } else {
        match comment_start(text::trim(line)) {
            Some(at) => if at == 0 {
                Seq::empty()
            } else {
                code_before(line, at)
            },
            None => line,
        }
    }
}

/// A line without its comment, unless it holds what has to stay.
pub open spec fn stripped_line(line: Seq<char>) -> Seq<char> {
    stripped(line, patterns::matches_in(PRESERVE_COMMENT@, line))
}

/// Lines without their comments, each with a line feed behind it.
pub open spec fn stripped_lines(lines: Seq<Seq<char>>) -> Seq<char>
    decreases lines.len(),
{
    if lines.len() == 0 {
        Seq::empty()
    } else {
        stripped_lines(lines.drop_last()) + stripped_line(lines.last()) + seq!['\n']
    }
}

/// What is left of a block comment: JSDoc stays.
pub open spec fn kept_comment(comment: Seq<char>) -> Seq<char> {
    if text::starts_with(comment, "/**"@) {
        comment
    } else {
        Seq::empty()
    }
}

/// A text without its block comments.
pub open spec fn without_block_comments(t: Seq<char>) -> Seq<char> {
    patterns::woven(
        patterns::gaps(BLOCK_COMMENT@, t),
        patterns::matches_of(BLOCK_COMMENT@, t).map_values(|m: Seq<char>| kept_comment(m)),
    )
}

pub open spec fn ends_line(t: Seq<char>) -> bool {
    t.len() > 0 && t.last() == '\n'
}

/// A text without comments. It ends with a line feed only if `content` does.
pub open spec fn without_comments(content: Seq<char>) -> Seq<char> {
    let t = without_block_comments(stripped_lines(text::lines(content)));
    if !ends_line(content) && ends_line(t) {
        t.drop_last()
    } else {
        t
    }
}

/// The state of a scan.
struct Scan {
    single: bool,
    double: bool,
    escaped: bool,
}

impl View for Scan {
    type V = ScanView;

    closed spec fn view(&self) -> ScanView {
        ScanView { single: self.single, double: self.double, escaped: self.escaped }
    }
}

impl Scan {
    fn step(&mut self, c: char)
        ensures
            final(self)@ == scanned(old(self)@, c),
    {
        if self.escaped {
            self.escaped = false;
        } else if c == '\\' {
            self.escaped = true;
        } else if c == '\'' && !self.double {
            self.single = !self.single;
        } else if c == '"' && !self.single {
            self.double = !self.double;
        }
    }
}

proof fn lemma_scan_next(line: Seq<char>, i: int)
    requires
        0 <= i < line.len(),
    ensures
        scan(line.take(i + 1)) == scanned(scan(line.take(i)), line[i]),
{
    assert(line.take(i + 1).drop_last() =~= line.take(i));
}

/// Finds where a comment starts with `comment_char`, strings apart.
pub fn find_comment_start(line: &[char], comment_char: char) -> (r: Option<usize>)
    ensures
        r matches Some(at) ==> comment_from(line@, comment_char, 0) == Some(at as int) && at
            < line@.len(),
        r is None ==> comment_from(line@, comment_char, 0) is None,
{
    let quoting = comment_char == '\'' || comment_char == '"' || comment_char == '\\';
    let mut state = Scan { single: false, double: false, escaped: false };
    let mut i: usize = 0;
    assert(line@.take(0) =~= Seq::empty());
    while i < line.len()
        invariant
            i <= line@.len(),
            quoting == is_quoting(comment_char),
            state@ == scan(line@.take(i as int)),
            comment_from(line@, comment_char, 0) == comment_from(line@, comment_char, i as int),
        decreases line@.len() - i,
    {
        let c = line[i];
        if c == comment_char && !quoting && !state.single && !state.double && !state.escaped {
            return Some(i);
        }
        proof {
            lemma_scan_next(line@, i as int);
        }
        state.step(c);
        i += 1;
    }
    None
}

/// Finds where a comment of two slashes starts, strings and URLs apart.
pub fn find_double_slash_comment(line: &[char]) -> (r: Option<usize>)
    ensures
        r matches Some(at) ==> slashes_from(line@, 0) == Some(at as int) && at < line@.len(),
        r is None ==> slashes_from(line@, 0) is None,
{
    let mut state = Scan { single: false, double: false, escaped: false };
    let mut i: usize = 0;
    assert(line@.take(0) =~= Seq::empty());
    while i < line.len()
        invariant
            i <= line@.len(),
            state@ == scan(line@.take(i as int)),
            slashes_from(line@, 0) == slashes_from(line@, i as int),
        decreases line@.len() - i,
    {
        let c = line[i];
        let bare = c == '/' && !state.single && !state.double && !state.escaped;
        let twice = i < line.len() - 1 && line[i + 1] == '/';
        let url = i > 0 && line[i - 1] == ':';
        if bare && twice && !url {
            return Some(i);
        }
        proof {
            lemma_scan_next(line@, i as int);
        }
        state.step(c);
        i += 1;
    }
    None
}

/// The code of a line before its comment.
fn code_part(line: &[char], at: usize) -> (r: Vec<char>)
    requires
        at <= text::trim(line@).len(),
    ensures
        r@ == code_before(line@, at as int),
{
    proof {
        text::lemma_leading_spaces_bound(line@);
        text::lemma_trailing_spaces_bound(text::trim_start(line@));
    }
    let leading = text::count_leading_spaces(line);
    assert(leading + at <= line.len());
    let code = text::sub_chars(line, 0, leading + at);
    assert(code@ =~= line@.take(leading + at));
    text::trimmed_end(code.as_slice())
}

/// Whether two slashes at `at` can divide.
fn may_divide(line: &[char], at: usize) -> (r: bool)
    requires
        at <= line@.len(),
    ensures
        r == can_divide(line@.take(at as int)),
{
    let before = text::sub_chars(line, 0, at);
    assert(before@ =~= line@.take(at as int));
    let t = text::trimmed_end(before.as_slice());
    if t.len() == 0 {
        return false;
    }
    let c = t[t.len() - 1];
    ('a' <= c && c <= 'z') || ('A' <= c && c <= 'Z') || ('0' <= c && c <= '9') || c == '_' || c
        == ')' || c == ']' || c == '\'' || c == '"' || c as u32 >= 0x80
}

/// A line without its comment. A line that has to stay is kept whole.
pub fn strip_line(line: &[char], preserve: bool) -> (r: Vec<char>)
    ensures
        r@ == stripped(line@, preserve),
{
    let whole = text::sub_chars(line, 0, line.len());
    assert(whole@ =~= line@);
    if preserve {
        return whole;
    }
    let trimmed = text::trimmed(line);
    let hash = find_comment_start(trimmed.as_slice(), '#');
    let slashes = find_double_slash_comment(trimmed.as_slice());
    let start: Option<usize> = match (hash, slashes) {
        (Some(x), Some(y)) => Some(
            if y < x && !may_divide(trimmed.as_slice(), y) {
                y
            } else {
                x
            },
        ),
        (Some(x), None) => Some(x),
        (None, other) => other,
    };
    match start {
        Some(at) => {
            if at == 0 {
                Vec::new()
            } else {
                code_part(line, at)
            }
        },
        None => whole,
    }
}

/// The gaps of a text with `parts` between them.
pub(crate) fn weave(between: &Vec<String>, parts: &Vec<String>) -> (r: String)
    requires
        between@.len() == parts@.len() + 1,
    ensures
        r@ == patterns::woven(
            patterns::string_views(between@),
            patterns::string_views(parts@),
        ),
{
    let ghost views = patterns::string_views(parts@);
    let mut out = text::chars_of(between[0].as_str());
    let mut i: usize = 0;
    assert(views.take(0) =~= Seq::empty());
    while i < parts.len()
        invariant
            i <= parts@.len(),
            between@.len() == parts@.len() + 1,
            views == patterns::string_views(parts@),
            out@ == patterns::woven(
                patterns::string_views(between@),
                views.take(i as int),
            ),
        decreases parts@.len() - i,
    {
        proof {
            assert(views.take(i + 1).drop_last() =~= views.take(i as int));
        }
        text::append_str(&mut out, parts[i].as_str());
        text::append_str(&mut out, between[i + 1].as_str());
        i += 1;
    }
    assert(views.take(views.len() as int) =~= views);
    text::text_of(out.as_slice())
}

/// The gaps of a text with those of its block comments between them that are
/// JSDoc.
pub fn keep_jsdoc(between: &Vec<String>, comments: &Vec<String>) -> (r: String)
    requires
        between@.len() == comments@.len() + 1,
    ensures
        r@ == patterns::woven(
            patterns::string_views(between@),
            patterns::string_views(comments@).map_values(|m: Seq<char>| kept_comment(m)),
        ),
{
    let jsdoc = text::chars_of("/**");
    let ghost kept = patterns::string_views(comments@).map_values(
        |m: Seq<char>| kept_comment(m),
    );
    let mut parts: Vec<String> = Vec::new();
    let mut i: usize = 0;
    while i < comments.len()
        invariant
            i <= comments@.len(),
            parts@.len() == i,
            jsdoc@ == "/**"@,
            forall|k: int|
                0 <= k < i ==> (#[trigger] parts@[k])@ == kept_comment(comments@[k]@),
        decreases comments@.len() - i,
    {
        let chars = text::chars_of(comments[i].as_str());
        if text::begins_with(chars.as_slice(), jsdoc.as_slice()) {
            parts.push(text::owned(comments[i].as_str()));
        } else {
            parts.push(String::new());
        }
        i += 1;
    }
    assert(patterns::string_views(parts@) =~= kept);
    weave(between, &parts)
}

/// The whole matches of a pattern.
fn whole_texts(found: &Vec<Vec<Option<String>>>) -> (r: Vec<String>)
    requires
        forall|k: int|
            0 <= k < found@.len() ==> (#[trigger] found@[k])@.len() > 0 && found@[k]@[0] is Some,
    ensures
        patterns::string_views(r@) == patterns::capture_views(found@).map_values(
            |groups: Seq<Option<Seq<char>>>| groups[0]->0,
        ),
{
    let mut out: Vec<String> = Vec::new();
    let mut i: usize = 0;
    while i < found.len()
        invariant
            i <= found@.len(),
            out@.len() == i,
            forall|k: int|
                0 <= k < found@.len() ==> (#[trigger] found@[k])@.len() > 0 && found@[k]@[0]
                    is Some,
            forall|k: int|
                0 <= k < i ==> (#[trigger] out@[k])@ == patterns::group_views(found@[k]@)[0]->0,
        decreases found@.len() - i,
    {
        out.push(whole_text(&found[i]));
        i += 1;
    }
    assert(patterns::string_views(out@) =~= patterns::capture_views(found@).map_values(
        |groups: Seq<Option<Seq<char>>>| groups[0]->0,
    ));
    out
}

/// A text without its block comments.
fn drop_block_comments(t: &str, patterns: &Patterns) -> (r: String)
    ensures
        r@ == without_block_comments(t@),
{
    proof {
        use_type_invariant(patterns);
    }
    let found = patterns::find_captures(&patterns.block_comment, t);
    let between = patterns::split(&patterns.block_comment, t);
    assert(patterns::capture_views(found@).len() == found@.len());
    let comments = whole_texts(&found);
    assert(patterns::string_views(comments@).len() == comments@.len());
    keep_jsdoc(&between, &comments)
}

/// A text without comments.
fn drop_comments(content: &str, patterns: &Patterns) -> (r: String)
    ensures
        r@ == without_comments(content@),
{
    proof {
        use_type_invariant(patterns);
    }
    let chars = text::chars_of(content);
    let lines = text::split_lines(chars.as_slice());
    let ghost all = text::lines(content@);
    let mut out: Vec<char> = Vec::new();
    let mut i: usize = 0;
    assert(all.take(0) =~= Seq::empty());
    while i < lines.len()
        invariant
            i <= lines@.len(),
            all == text::views(lines@),
            patterns::pattern_of(patterns.preserve_comment) == PRESERVE_COMMENT@,
            out@ == stripped_lines(all.take(i as int)),
        decreases lines@.len() - i,
    {
        let ghost before = out@;
        let preserve = line_matches(&lines[i], &patterns.preserve_comment);
        let line = strip_line(lines[i].as_slice(), preserve);
        proof {
            assert(all.take(i + 1).drop_last() =~= all.take(i as int));
            assert(all.take(i + 1).last() == lines@[i as int]@);
        }
        text::append_chars(&mut out, line.as_slice());
        out.push('\n');
        assert(out@ =~= before + stripped_line(lines@[i as int]@) + seq!['\n']);
        i += 1;
    }
    assert(all.take(all.len() as int) =~= all);
    let stripped = text::text_of(out.as_slice());
    let bare = drop_block_comments(stripped.as_str(), patterns);
    let left = text::chars_of(bare.as_str());
    let open_end = chars.len() == 0 || chars[chars.len() - 1] != '\n';
    if open_end && left.len() > 0 && left[left.len() - 1] == '\n' {
        let cut = text::sub_chars(left.as_slice(), 0, left.len() - 1);
        assert(cut@ =~= left@.drop_last());
        text::text_of(cut.as_slice())
    } else {
        bare
    }
}

/// Strips comments, but not those that have to stay.
fn strip_comments(content: &str, patterns: &Patterns, tokenizer: &Tokenizer) -> (r: Option<Staged>)
    ensures
        staged_view(r) == stage(
            content@,
            without_comments(content@),
            "B2_comments"@,
            "Stripped inline comments"@,
        ),
{
    let stripped = drop_comments(content, patterns);
    measure(content, stripped, "B2_comments", "Stripped inline comments", tokenizer)
}

// ---------------------------------------------------------------------------
// White space
// ---------------------------------------------------------------------------
/// A text without zero-width characters, without white space at the end of its
/// lines, and without runs of blank lines.
pub open spec fn normalized(t: Seq<char>) -> Seq<char> {
    let t1 = patterns::replaced(ZERO_WIDTH@, t, ""@);
    let t2 = patterns::replaced(TRAILING_WHITESPACE@, t1, ""@);
    patterns::replaced(MULTIPLE_BLANK_LINES@, t2, "\n\n"@)
}

/// Normalizes white space.
fn normalize_whitespace(content: &str, patterns: &Patterns, tokenizer: &Tokenizer) -> (r: Option<
    Staged,
>)
    ensures
        staged_view(r) == stage(
            content@,
            normalized(content@),
            "B3_whitespace"@,
            "Normalized whitespace"@,
        ),
{
    proof {
        use_type_invariant(patterns);
    }
    let t1 = patterns::replace_all(&patterns.zero_width, content, "");
    let t2 = patterns::replace_all(&patterns.trailing_whitespace, t1.as_str(), "");
    let t3 = patterns::replace_all(&patterns.multiple_blank_lines, t2.as_str(), "\n\n");
    measure(content, t3, "B3_whitespace", "Normalized whitespace", tokenizer)
}

// ---------------------------------------------------------------------------
// Stack traces
// ---------------------------------------------------------------------------
/// What the patterns say of a line: that it is the header of a Python
/// traceback, one of the lines that name a file in it, or a line of a Node.js
/// stack trace.
#[derive(Clone, Copy, Debug, PartialEq, Eq, Structural)]
pub struct LineMarks {
    pub header: bool,
    pub frame: bool,
    pub node: bool,
}

/// What the patterns say of a line.
pub open spec fn marks_of(line: Seq<char>) -> LineMarks {
    LineMarks {
        header: patterns::matches_in(PYTHON_TRACEBACK_HEADER@, line),
        frame: patterns::matches_in(PYTHON_TRACEBACK_LINE@, line),
        node: patterns::matches_in(NODE_STACK_LINE@, line),
    }
}

/// What the patterns say of lines.
pub open spec fn all_marks(lines: Seq<Seq<char>>) -> Seq<LineMarks> {
    lines.map_values(|line: Seq<char>| marks_of(line))
}

/// A line of a Python traceback below its header.
pub open spec fn traceback_line(line: Seq<char>, marks: LineMarks) -> bool {
    marks.frame || text::starts_with(line, "    "@) || line.len() == 0
}

/// The end of the traceback whose lines start at `i`: its error line, the
/// first that is not one of the others, belongs to it.
pub open spec fn traceback_end(lines: Seq<Seq<char>>, marks: Seq<LineMarks>, i: int) -> int
    decreases lines.len() - i,
{
    if i >= lines.len() {
        i
    } else if traceback_line(lines[i], marks[i]) {
        traceback_end(lines, marks, i + 1)
    } else {
        i + 1
    }
}

/// The end of the run of Node.js stack lines that starts at `i`.
pub open spec fn node_end(lines: Seq<Seq<char>>, marks: Seq<LineMarks>, i: int) -> int
    decreases lines.len() - i,
{
    if i < lines.len() && marks[i].node {
        node_end(lines, marks, i + 1)
    } else {
        i
    }
}

/// The end of the stack trace that starts at `i`, if one does.
pub open spec fn trace_end(lines: Seq<Seq<char>>, marks: Seq<LineMarks>, i: int) -> Option<int> {
    if marks[i].header {
        Some(traceback_end(lines, marks, i + 1))
    } else if marks[i].node {
        Some(node_end(lines, marks, i))
    } else {
        None
    }
}

/// The line that stands for `n` lines.
pub open spec fn omission(n: nat) -> Seq<char> {
    "[... "@ + text::decimal(n) + " frames omitted by Janus ...]"@
}

/// A stack trace; of one longer than ten lines, the first five and the last
/// five.
pub open spec fn shortened(trace: Seq<Seq<char>>) -> Seq<Seq<char>> {
    if trace.len() > 10 {
        trace.take(5) + seq![omission((trace.len() - 10) as nat)] + trace.skip(trace.len() - 5)
    } else {
        trace
    }
}

proof fn lemma_traceback_end(lines: Seq<Seq<char>>, marks: Seq<LineMarks>, i: int)
    requires
        0 <= i <= lines.len(),
    ensures
        i <= traceback_end(lines, marks, i) <= lines.len(),
        i < lines.len() ==> i < traceback_end(lines, marks, i),
    decreases lines.len() - i,
{
    if i < lines.len() && traceback_line(lines[i], marks[i]) {
        lemma_traceback_end(lines, marks, i + 1);
    }
}

proof fn lemma_node_end(lines: Seq<Seq<char>>, marks: Seq<LineMarks>, i: int)
    requires
        0 <= i <= lines.len(),
    ensures
        i <= node_end(lines, marks, i) <= lines.len(),
    decreases lines.len() - i,
{
    if i < lines.len() && marks[i].node {
        lemma_node_end(lines, marks, i + 1);
    }
}

/// A stack trace ends behind its start, and not behind the text.
pub proof fn trace_is_in_text(lines: Seq<Seq<char>>, marks: Seq<LineMarks>, i: int)
    requires
        0 <= i < lines.len(),
    ensures
        trace_end(lines, marks, i) matches Some(end) ==> i < end <= lines.len(),
{
    lemma_traceback_end(lines, marks, i + 1);
    lemma_node_end(lines, marks, i);
    if marks[i].node {
        lemma_node_end(lines, marks, i + 1);
    }
}

/// The lines from `i` on, with their stack traces shortened.
pub open spec fn condensed(lines: Seq<Seq<char>>, marks: Seq<LineMarks>, i: int) -> Seq<Seq<char>>
    decreases lines.len() - i,
{
    proof {
        if 0 <= i < lines.len() {
            trace_is_in_text(lines, marks, i);
        }
    }
    if i < 0 || i >= lines.len() {
        Seq::empty()
    } else {
        match trace_end(lines, marks, i) {
            Some(end) => shortened(lines.subrange(i, end)) + condensed(lines, marks, end),
            None => seq![lines[i]] + condensed(lines, marks, i + 1),
        }
    }
}

/// One of the stack traces from `i` on is longer than ten lines.
pub open spec fn has_long_trace(lines: Seq<Seq<char>>, marks: Seq<LineMarks>, i: int) -> bool
    decreases lines.len() - i,
{
    proof {
        if 0 <= i < lines.len() {
            trace_is_in_text(lines, marks, i);
        }
    }
    if i < 0 || i >= lines.len() {
        false
    } else {
        match trace_end(lines, marks, i) {
            Some(end) => end - i > 10 || has_long_trace(lines, marks, end),
            None => has_long_trace(lines, marks, i + 1),
        }
    }
}

/// The stage that shortens stack traces. It leaves a text without a long one
/// as it is.
pub open spec fn stack_stage(content: Seq<char>) -> Option<StageView> {
    let lines = text::lines(content);
    let marks = all_marks(lines);
    if has_long_trace(lines, marks, 0) {
        stage(
            content,
            text::joined(condensed(lines, marks, 0), seq!['\n']),
            "B4_stacktrace"@,
            "Truncated stack traces"@,
        )
    } else {
        unchanged(content)
    }
}

/// A stage that leaves a text as it is.
pub open spec fn unchanged(content: Seq<char>) -> Option<StageView> {
    match tokenizer::tokens(content) {
        Some(_) => Some(StageView { text: content, event: None }),
        None => None,
    }
}

/// Whether a line matches a pattern.
fn line_matches(line: &Vec<char>, re: &regex::Regex) -> (r: bool)
    ensures
        r == patterns::matches_in(patterns::pattern_of(*re), line@),
{
    let t = text::text_of(line.as_slice());
    patterns::is_match(re, t.as_str())
}

/// Finds the end of the stack trace that starts at `i`, if one does.
fn find_trace_end(lines: &Vec<Vec<char>>, marks: &Vec<LineMarks>, i: usize) -> (r: Option<usize>)
    requires
        i < lines@.len(),
        marks@.len() == lines@.len(),
    ensures
        r matches Some(end) ==> trace_end(text::views(lines@), marks@, i as int) == Some(end as int)
            && i < end <= lines@.len(),
        r is None ==> trace_end(text::views(lines@), marks@, i as int) is None,
{
    proof {
        trace_is_in_text(text::views(lines@), marks@, i as int);
    }
    let ghost views = text::views(lines@);
    assert(i < lines.len());
    if marks[i].header {
        let indent = text::chars_of("    ");
        let mut end: usize = i + 1;
        while end < lines.len()
            invariant
                i < end <= lines@.len(),
                marks@.len() == lines@.len(),
                views == text::views(lines@),
                indent@ == "    "@,
                trace_end(views, marks@, i as int) == Some(traceback_end(views, marks@, i + 1)),
                traceback_end(views, marks@, i + 1) == traceback_end(views, marks@, end as int),
            decreases lines@.len() - end,
        {
            let inside = marks[end].frame || text::begins_with(
                lines[end].as_slice(),
                indent.as_slice(),
            ) || lines[end].len() == 0;
            assert(inside == traceback_line(views[end as int], marks@[end as int]));
            if !inside {
                return Some(end + 1);
            }
            end += 1;
        }
        Some(end)
    } else if marks[i].node {
        let mut end: usize = i;
        while end < lines.len()
            invariant
                i <= end <= lines@.len(),
                marks@.len() == lines@.len(),
                views == text::views(lines@),
                trace_end(views, marks@, i as int) == Some(node_end(views, marks@, i as int)),
                trace_end(views, marks@, i as int) matches Some(e) ==> i < e <= lines@.len(),
                node_end(views, marks@, i as int) == node_end(views, marks@, end as int),
            decreases lines@.len() - end,
        {
            if !marks[end].node {
                return Some(end);
            }
            end += 1;
        }
        Some(end)
    } else {
        None
    }
}

/// Appends copies of the lines from `from` up to `to`.
fn copy_lines(out: &mut Vec<Vec<char>>, lines: &Vec<Vec<char>>, from: usize, to: usize)
    requires
        from <= to <= lines@.len(),
    ensures
        text::views(final(out)@) == text::views(old(out)@) + text::views(lines@).subrange(
            from as int,
            to as int,
        ),
{
    let ghost start = text::views(out@);
    let mut i: usize = from;
    while i < to
        invariant
            from <= i <= to <= lines@.len(),
            text::views(out@) == start + text::views(lines@).subrange(from as int, i as int),
        decreases to - i,
    {
        let ghost before = out@;
        let line = text::sub_chars(lines[i].as_slice(), 0, lines[i].len());
        assert(line@ =~= lines@[i as int]@);
        out.push(line);
        proof {
            assert(text::views(out@) =~= text::views(before).push(lines@[i as int]@));
            assert(text::views(lines@).subrange(from as int, i + 1) =~= text::views(
                lines@,
            ).subrange(from as int, i as int).push(lines@[i as int]@));
        }
        i += 1;
    }
    assert(text::views(out@) =~= start + text::views(lines@).subrange(from as int, to as int));
}

/// Appends the stack trace from `from` up to `to`, shortened.
fn copy_trace(out: &mut Vec<Vec<char>>, lines: &Vec<Vec<char>>, from: usize, to: usize)
    requires
        from <= to <= lines@.len(),
    ensures
        text::views(final(out)@) == text::views(old(out)@) + shortened(
            text::views(lines@).subrange(from as int, to as int),
        ),
{
    let ghost start = text::views(out@);
    let ghost all = text::views(lines@);
    if to - from > 10 {
        copy_lines(out, lines, from, from + 5);
        let mut note: Vec<char> = Vec::new();
        text::append_str(&mut note, "[... ");
        let number = text::decimal_chars((to - from - 10) as u64);
        text::append_chars(&mut note, number.as_slice());
        text::append_str(&mut note, " frames omitted by Janus ...]");
        assert(note@ =~= omission((to - from - 10) as nat));
        let ghost before = out@;
        out.push(note);
        assert(text::views(out@) =~= text::views(before).push(note@));
        copy_lines(out, lines, to - 5, to);
        proof {
            let trace = all.subrange(from as int, to as int);
            assert(trace.take(5) =~= all.subrange(from as int, from + 5));
            assert(trace.skip(trace.len() - 5) =~= all.subrange(to - 5, to as int));
            assert(text::views(out@) =~= start + shortened(trace));
        }
    } else {
        copy_lines(out, lines, from, to);
    }
}

/// Lines with their stack traces shortened, and whether one of them was longer
/// than ten lines.
pub fn condense(lines: &Vec<Vec<char>>, marks: &Vec<LineMarks>) -> (r: (Vec<Vec<char>>, bool))
    requires
        marks@.len() == lines@.len(),
    ensures
        text::views(r.0@) == condensed(text::views(lines@), marks@, 0),
        r.1 == has_long_trace(text::views(lines@), marks@, 0),
{
    let ghost all = text::views(lines@);
    let mut out: Vec<Vec<char>> = Vec::new();
    let mut modified = false;
    let mut i: usize = 0;
    assert(text::views(out@) + condensed(all, marks@, 0) =~= condensed(all, marks@, 0));
    while i < lines.len()
        invariant
            i <= lines@.len(),
            marks@.len() == lines@.len(),
            all == text::views(lines@),
            text::views(out@) + condensed(all, marks@, i as int) == condensed(all, marks@, 0),
            has_long_trace(all, marks@, 0) == (modified || has_long_trace(all, marks@, i as int)),
        decreases lines@.len() - i,
    {
        let ghost before = text::views(out@);
        match find_trace_end(lines, marks, i) {
            Some(end) => {
                if end - i > 10 {
                    modified = true;
                }
                copy_trace(&mut out, lines, i, end);
                proof {
                    let trace = shortened(all.subrange(i as int, end as int));
                    assert(text::views(out@) + condensed(all, marks@, end as int) =~= before + (
                    trace + condensed(all, marks@, end as int)));
                }
                i = end;
            },
            None => {
                copy_lines(&mut out, lines, i, i + 1);
                proof {
                    assert(all.subrange(i as int, i + 1) =~= seq![all[i as int]]);
                    assert(text::views(out@) + condensed(all, marks@, i + 1) =~= before + (seq![
                        all[i as int],
                    ] + condensed(all, marks@, i + 1)));
                }
                i += 1;
            },
        }
    }
    assert(text::views(out@) =~= condensed(all, marks@, 0));
    (out, modified)
}

/// Asks the patterns of every line.
fn mark_lines(lines: &Vec<Vec<char>>, patterns: &Patterns) -> (r: Vec<LineMarks>)
    ensures
        r@ == all_marks(text::views(lines@)),
{
    proof {
        use_type_invariant(patterns);
    }
    let ghost all = all_marks(text::views(lines@));
    let mut out: Vec<LineMarks> = Vec::new();
    let mut i: usize = 0;
    while i < lines.len()
        invariant
            i <= lines@.len(),
            all == all_marks(text::views(lines@)),
            patterns::pattern_of(patterns.python_traceback_line) == PYTHON_TRACEBACK_LINE@,
            patterns::pattern_of(patterns.node_stack_line) == NODE_STACK_LINE@,
            patterns::pattern_of(patterns.python_traceback_header) == PYTHON_TRACEBACK_HEADER@,
            out@ == all.take(i as int),
        decreases lines@.len() - i,
    {
        let line = &lines[i];
        let marks = LineMarks {
            header: line_matches(line, &patterns.python_traceback_header),
            frame: line_matches(line, &patterns.python_traceback_line),
            node: line_matches(line, &patterns.node_stack_line),
        };
        out.push(marks);
        assert(all[i as int] == marks_of(lines@[i as int]@));
        assert(all.take(i + 1) =~= all.take(i as int).push(marks));
        i += 1;
    }
    assert(all.take(all.len() as int) =~= all);
    out
}

/// Shortens stack traces to their first five and last five lines.
fn truncate_stacktraces(content: &str, patterns: &Patterns, tokenizer: &Tokenizer) -> (r: Option<
    Staged,
>)
    ensures
        staged_view(r) == stack_stage(content@),
{
    let chars = text::chars_of(content);
    let lines = text::split_lines(chars.as_slice());
    let marks = mark_lines(&lines, patterns);
    let (out, modified) = condense(&lines, &marks);
    if !modified {
        return leave(content, tokenizer);
    }
    let result = text::join_lines(&out);
    measure(
        content,
        text::text_of(result.as_slice()),
        "B4_stacktrace",
        "Truncated stack traces",
        tokenizer,
    )
}

/// Leaves a text as it is.
fn leave(content: &str, tokenizer: &Tokenizer) -> (r: Option<Staged>)
    ensures
        staged_view(r) == unchanged(content@),
{
    match tokenizer.count_tokens(content) {
        Some(_) => Some(Staged { text: text::owned(content), event: None }),
        None => None,
    }
}

// ---------------------------------------------------------------------------
// Repeated code blocks
// ---------------------------------------------------------------------------
/// What a fenced code block holds. (The group of the pattern takes part in
/// every match.)
pub open spec fn fenced(groups: Seq<Option<Seq<char>>>) -> Seq<char> {
    if groups.len() > 1 && groups[1] is Some {
        groups[1]->0
    } else {
        Seq::empty()
    }
}

/// The hash by which code blocks are told apart: white space around them does
/// not count.
pub open spec fn block_hash(groups: Seq<Option<Seq<char>>>) -> u64 {
    hashing::xxh3(encode_utf8(text::trim(fenced(groups))))
}

/// The hashes of code blocks.
pub open spec fn block_hashes(blocks: Seq<Seq<Option<Seq<char>>>>) -> Seq<u64> {
    blocks.map_values(|groups: Seq<Option<Seq<char>>>| block_hash(groups))
}

/// The hash at `i` is one that has come before.
pub open spec fn repeated(hashes: Seq<u64>, i: int) -> bool {
    exists|k: int| 0 <= k < i && #[trigger] hashes[k] == hashes[i]
}

/// The text that stands for a repeated code block of `n` tokens.
pub open spec fn block_note(n: nat) -> Seq<char> {
    "[Janus: duplicate of code block above — "@ + text::decimal(n) + " tokens omitted]"@
}

/// The tokens of a repeated code block can be counted.
pub open spec fn countable(blocks: Seq<Seq<Option<Seq<char>>>>, i: int) -> bool {
    repeated(block_hashes(blocks), i) ==> tokenizer::tokens(fenced(blocks[i])) is Some
}

/// What is left of the code block at `i`: a repeated one is replaced by a
/// note, the first of its kind stays.
pub open spec fn collapsed_block(blocks: Seq<Seq<Option<Seq<char>>>>, i: int) -> Seq<char> {
    if repeated(block_hashes(blocks), i) {
        block_note(tokenizer::tokens(fenced(blocks[i]))->0)
    } else {
        blocks[i][0]->0
    }
}

/// A text with its repeated code blocks replaced.
pub open spec fn collapsed(content: Seq<char>) -> Seq<char> {
    let blocks = patterns::captures(FENCED_CODE_BLOCK@, content);
    patterns::woven(
        patterns::gaps(FENCED_CODE_BLOCK@, content),
        Seq::new(blocks.len(), |i: int| collapsed_block(blocks, i)),
    )
}

/// The stage that replaces repeated code blocks. It leaves a text without one
/// as it is.
pub open spec fn block_stage(content: Seq<char>) -> Option<StageView> {
    let blocks = patterns::captures(FENCED_CODE_BLOCK@, content);
    if exists|i: int| 0 <= i < blocks.len() && !#[trigger] countable(blocks, i) {
        None
    } else if exists|i: int|
        0 <= i < blocks.len() && #[trigger] repeated(block_hashes(blocks), i) {
        stage(
            content,
            collapsed(content),
            "B5_dedup_blocks"@,
            "Collapsed duplicate code blocks"@,
        )
    } else {
        unchanged(content)
    }
}

/// Says of each hash whether it has come before.
pub fn repeats(hashes: &Vec<u64>) -> (r: Vec<bool>)
    ensures
        r@.len() == hashes@.len(),
        forall|i: int| 0 <= i < r@.len() ==> #[trigger] r@[i] == repeated(hashes@, i),
{
    broadcast use vstd::std_specs::hash::group_hash_axioms;

    let mut seen: HashSet<u64> = HashSet::new();
    let mut out: Vec<bool> = Vec::new();
    let mut i: usize = 0;
    while i < hashes.len()
        invariant
            i <= hashes@.len(),
            out@.len() == i,
            forall|h: u64| #[trigger]
                seen@.contains(h) <==> exists|k: int| 0 <= k < i && #[trigger] hashes@[k] == h,
            forall|k: int| 0 <= k < i ==> #[trigger] out@[k] == repeated(hashes@, k),
        decreases hashes@.len() - i,
    {
        broadcast use vstd::std_specs::hash::group_hash_axioms;

        let ghost before = seen@;
        let hash = hashes[i];
        let again = seen.contains(&hash);
        assert(again == repeated(hashes@, i as int));
        seen.insert(hash);
        out.push(again);
        proof {
            assert forall|h: u64| #[trigger] seen@.contains(h) implies exists|k: int|
                0 <= k < i + 1 && #[trigger] hashes@[k] == h by {
                if !before.contains(h) {
                    assert(hashes@[i as int] == h);
                }
            }
            assert forall|h: u64|
                (exists|k: int| 0 <= k < i + 1 && #[trigger] hashes@[k] == h) implies #[trigger] seen@.contains(
            h) by {
                let k = choose|k: int| 0 <= k < i + 1 && #[trigger] hashes@[k] == h;
                if k < i {
                    assert(before.contains(h));
                }
            }
        }
        i += 1;
    }
    out
}

/// What a fenced code block holds.
fn fenced_text(groups: &Vec<Option<String>>) -> (r: Vec<char>)
    ensures
        r@ == fenced(patterns::group_views(groups@)),
{
    if groups.len() > 1 {
        match &groups[1] {
            Some(t) => text::chars_of(t.as_str()),
            None => Vec::new(),
        }
    } else {
        Vec::new()
    }
}

/// The whole of a match.
pub(crate) fn whole_text(groups: &Vec<Option<String>>) -> (r: String)
    requires
        groups@.len() > 0,
        groups@[0] is Some,
    ensures
        r@ == patterns::group_views(groups@)[0]->0,
{
    match &groups[0] {
        Some(t) => text::owned(t.as_str()),
        None => String::new(),
    }
}

/// The text that stands for a repeated code block of `n` tokens.
pub fn note_for(n: usize) -> (r: String)
    ensures
        r@ == block_note(n as nat),
{
    let mut note: Vec<char> = Vec::new();
    text::append_str(&mut note, "[Janus: duplicate of code block above — ");
    let number = text::decimal_chars(n as u64);
    text::append_chars(&mut note, number.as_slice());
    text::append_str(&mut note, " tokens omitted]");
    assert(note@ =~= block_note(n as nat));
    text::text_of(note.as_slice())
}

/// The hashes of code blocks.
fn hash_blocks(found: &Vec<Vec<Option<String>>>) -> (r: Vec<u64>)
    ensures
        r@ == block_hashes(patterns::capture_views(found@)),
{
    let ghost all = block_hashes(patterns::capture_views(found@));
    let mut out: Vec<u64> = Vec::new();
    let mut i: usize = 0;
    while i < found.len()
        invariant
            i <= found@.len(),
            all == block_hashes(patterns::capture_views(found@)),
            out@ == all.take(i as int),
        decreases found@.len() - i,
    {
        let inner = fenced_text(&found[i]);
        let trimmed = text::trimmed(inner.as_slice());
        let normalized = text::text_of(trimmed.as_slice());
        let hash = hashing::hash_of(normalized.as_str().as_bytes());
        assert(all[i as int] == block_hash(patterns::group_views(found@[i as int]@)));
        out.push(hash);
        assert(all.take(i + 1) =~= all.take(i as int).push(hash));
        i += 1;
    }
    assert(all.take(all.len() as int) =~= all);
    out
}

/// The code blocks of a text, with what stands around them, make the text.
pub open spec fn made_of_blocks(content: Seq<char>) -> bool {
    let between = patterns::gaps(FENCED_CODE_BLOCK@, content);
    &&& between.len() == patterns::captures(FENCED_CODE_BLOCK@, content).len() + 1
    &&& patterns::woven(between, patterns::matches_of(FENCED_CODE_BLOCK@, content)) == content
}

/// Replaces repeated fenced code blocks. What stands around them stays.
pub fn collapse_duplicate_blocks(content: &str, patterns: &Patterns, tokenizer: &Tokenizer) -> (r:
    Option<Staged>)
    ensures
        staged_view(r) == block_stage(content@),
        made_of_blocks(content@),
{
    proof {
        use_type_invariant(patterns);
    }
    let found = patterns::find_captures(&patterns.fenced_code_block, content);
    let between = patterns::split(&patterns.fenced_code_block, content);
    let ghost blocks = patterns::captures(FENCED_CODE_BLOCK@, content@);
    assert(patterns::capture_views(found@).len() == found@.len());
    assert(patterns::string_views(between@).len() == between@.len());
    assert(made_of_blocks(content@));
    let hashes = hash_blocks(&found);
    let again = repeats(&hashes);
    let mut parts: Vec<String> = Vec::new();
    let mut modified = false;
    let mut i: usize = 0;
    while i < found.len()
        invariant
            i <= found@.len(),
            found@.len() == blocks.len(),
            again@.len() == blocks.len(),
            blocks == patterns::capture_views(found@),
            blocks == patterns::captures(FENCED_CODE_BLOCK@, content@),
            made_of_blocks(content@),
            forall|k: int|
                0 <= k < found@.len() ==> (#[trigger] found@[k])@.len() > 0 && found@[k]@[0]
                    is Some,
            forall|k: int|
                0 <= k < again@.len() ==> #[trigger] again@[k] == repeated(block_hashes(blocks), k),
            parts@.len() == i,
            forall|k: int| 0 <= k < i ==> #[trigger] countable(blocks, k),
            forall|k: int|
                0 <= k < i ==> (#[trigger] parts@[k])@ == collapsed_block(blocks, k),
            modified <==> exists|k: int|
                0 <= k < i && #[trigger] repeated(block_hashes(blocks), k),
        decreases found@.len() - i,
    {
        assert(blocks[i as int] == patterns::group_views(found@[i as int]@));
        assert(again@[i as int] == repeated(block_hashes(blocks), i as int));
        if again[i] {
            modified = true;
            let t = text::text_of(fenced_text(&found[i]).as_slice());
            match tokenizer.count_tokens(t.as_str()) {
                Some(n) => {
                    assert(countable(blocks, i as int));
                    parts.push(note_for(n));
                },
                None => {
                    assert(!countable(blocks, i as int));
                    return None;
                },
            }
        } else {
            assert(countable(blocks, i as int));
            parts.push(whole_text(&found[i]));
        }
        i += 1;
    }
    if !modified {
        return leave(content, tokenizer);
    }
    proof {
        let all = Seq::new(blocks.len(), |k: int| collapsed_block(blocks, k));
        assert(patterns::string_views(parts@) =~= all);
    }
    let result = weave(&between, &parts);
    measure(content, result, "B5_dedup_blocks", "Collapsed duplicate code blocks", tokenizer)
}

// ---------------------------------------------------------------------------
// All stages
// ---------------------------------------------------------------------------
/// A text behind some stages, and the events of those stages.
pub struct CompressedView {
    pub text: Seq<char>,
    pub events: Seq<EventView>,
}

/// One more stage.
pub open spec fn then_stage(c: CompressedView, s: StageView) -> CompressedView {
    CompressedView {
        text: s.text,
        events: match s.event {
            Some(e) => c.events.push(e),
            None => c.events,
        },
    }
}

pub open spec fn docstring_stage(t: Seq<char>) -> Option<StageView> {
    stage(t, without_docstrings(t), "B1_docstrings"@, "Removed docstrings and doc-comments"@)
}

pub open spec fn comment_stage(t: Seq<char>) -> Option<StageView> {
    stage(t, without_comments(t), "B2_comments"@, "Stripped inline comments"@)
}

pub open spec fn whitespace_stage(t: Seq<char>) -> Option<StageView> {
    stage(t, normalized(t), "B3_whitespace"@, "Normalized whitespace"@)
}

/// The stage of a number, from 1 to 5.
pub open spec fn numbered_stage(n: nat, t: Seq<char>) -> Option<StageView> {
    if n == 1 {
        docstring_stage(t)
    } else if n == 2 {
        comment_stage(t)
    } else if n == 3 {
        whitespace_stage(t)
    } else if n == 4 {
        stack_stage(t)
    } else {
        block_stage(t)
    }
}

/// A text behind the first `n` stages.
pub open spec fn compressed_to(t: Seq<char>, n: nat) -> Option<CompressedView>
    decreases n,
{
    if n == 0 {
        Some(CompressedView { text: t, events: Seq::empty() })
    } else {
        match compressed_to(t, (n - 1) as nat) {
            Some(c) => match numbered_stage(n, c.text) {
                Some(s) => Some(then_stage(c, s)),
                None => None,
            },
            None => None,
        }
    }
}

/// A text behind all stages.
pub open spec fn compressed(t: Seq<char>) -> Option<CompressedView> {
    compressed_to(t, 5)
}

/// Takes a stage in: its event, and its text.
pub(crate) fn accept(staged: Staged, events: &mut Vec<CompressionEvent>) -> (r: String)
    ensures
        r@ == staged@.text,
        metrics::event_views(final(events)@) == match staged@.event {
            Some(e) => metrics::event_views(old(events)@).push(e),
            None => metrics::event_views(old(events)@),
        },
{
    let ghost before = events@;
    match staged.event {
        Some(e) => {
            events.push(e);
            assert(metrics::event_views(events@) =~= metrics::event_views(before).push(e@));
        },
        None => {},
    }
    staged.text
}

/// Runs all stages on a text: docstrings, comments, white space, stack traces
/// and repeated code blocks, in this order. Returns the text that is left and
/// an event for each stage that took tokens away; `None` where the tokens of
/// one of the texts cannot be counted.
pub fn compress(content: &str, patterns: &Patterns, tokenizer: &Tokenizer) -> (r: Option<
    (String, Vec<CompressionEvent>),
>)
    ensures
        match compressed(content@) {
            Some(c) => r matches Some(out) && out.0@ == c.text && metrics::event_views(out.1@)
                == c.events,
            None => r is None,
        },
{
    reveal_with_fuel(compressed_to, 6);
    let mut events: Vec<CompressionEvent> = Vec::new();
    assert(metrics::event_views(events@) =~= Seq::empty());
    let s1 = remove_docstrings(content, patterns, tokenizer)?;
    let t1 = accept(s1, &mut events);
    let s2 = strip_comments(t1.as_str(), patterns, tokenizer)?;
    let t2 = accept(s2, &mut events);
    let s3 = normalize_whitespace(t2.as_str(), patterns, tokenizer)?;
    let t3 = accept(s3, &mut events);
    let s4 = truncate_stacktraces(t3.as_str(), patterns, tokenizer)?;
    let t4 = accept(s4, &mut events);
    let s5 = collapse_duplicate_blocks(t4.as_str(), patterns, tokenizer)?;
    let t5 = accept(s5, &mut events);
    Some((t5, events))
}

// ---------------------------------------------------------------------------
// Laws
// ---------------------------------------------------------------------------
proof fn lemma_events_save(t: Seq<char>, n: nat)
    requires
        n <= 5,
    ensures
        compressed_to(t, n) matches Some(c) ==> forall|i: int|
            0 <= i < c.events.len() ==> (#[trigger] c.events[i]).before > c.events[i].after,
    decreases n,
{
    if n > 0 {
        lemma_events_save(t, (n - 1) as nat);
    }
}

/// Every event reports that a stage took tokens away.
pub proof fn events_report_savings(t: Seq<char>)
    ensures
        compressed(t) matches Some(c) ==> forall|i: int|
            0 <= i < c.events.len() ==> (#[trigger] c.events[i]).before > c.events[i].after,
{
    lemma_events_save(t, 5);
}

/// Comment stripping keeps a line that holds what has to stay.
pub proof fn preserved_lines_stay(line: Seq<char>)
    ensures
        patterns::matches_in(PRESERVE_COMMENT@, line) ==> stripped_line(line) == line,
{
}

/// Comment stripping cuts a line off; it changes nothing of what it leaves.
pub proof fn stripping_leaves_a_prefix(line: Seq<char>, preserve: bool)
    ensures
        stripped(line, preserve).len() <= line.len(),
        stripped(line, preserve) == line.take(stripped(line, preserve).len() as int),
{
    let t = text::trim(line);
    text::lemma_leading_spaces_bound(line);
    text::lemma_trailing_spaces_bound(text::trim_start(line));
    let lead = text::leading_spaces(line) as int;
    lemma_comment_bound(t, '#', 0);
    lemma_slashes_bound(t, 0);
    match comment_start(t) {
        Some(at) => {
            text::lemma_trailing_spaces_bound(line.take(lead + at));
        },
        None => {},
    }
    assert(stripped(line, preserve) =~= line.take(stripped(line, preserve).len() as int));
}

proof fn lemma_comment_bound(line: Seq<char>, c: char, from: int)
    requires
        0 <= from,
    ensures
        comment_from(line, c, from) matches Some(at) ==> from <= at < line.len() && bare_at(
            line,
            c,
            at,
        ),
    decreases line.len() - from,
{
    if from < line.len() && !bare_at(line, c, from) {
        lemma_comment_bound(line, c, from + 1);
    }
}

proof fn lemma_slashes_bound(line: Seq<char>, from: int)
    requires
        0 <= from,
    ensures
        slashes_from(line, from) matches Some(at) ==> from <= at < line.len() && slashes_at(
            line,
            at,
        ),
    decreases line.len() - from,
{
    if from < line.len() && !slashes_at(line, from) {
        lemma_slashes_bound(line, from + 1);
    }
}

/// No comment starts inside a string, behind a backslash, or at the slashes of
/// a URL.
pub proof fn strings_and_urls_are_no_comments(line: Seq<char>)
    ensures
        comment_from(line, '#', 0) matches Some(at) ==> ({
            let s = scan(line.take(at));
            !s.single && !s.double && !s.escaped
        }),
        slashes_from(line, 0) matches Some(at) ==> ({
            let s = scan(line.take(at));
            !s.single && !s.double && !s.escaped && (at > 0 ==> line[at - 1] != ':')
        }),
{
    lemma_comment_bound(line, '#', 0);
    lemma_slashes_bound(line, 0);
}

/// No comment starts before the first one.
proof fn lemma_first_comment(line: Seq<char>, c: char, from: int)
    requires
        0 <= from,
    ensures
        forall|k: int|
            from <= k < match comment_from(line, c, from) {
                Some(at) => at,
                None => line.len() as int,
            } ==> !#[trigger] bare_at(line, c, k),
    decreases line.len() - from,
{
    if from < line.len() && !bare_at(line, c, from) {
        lemma_first_comment(line, c, from + 1);
    }
}

proof fn lemma_first_slashes(line: Seq<char>, from: int)
    requires
        0 <= from,
    ensures
        forall|k: int|
            from <= k < match slashes_from(line, from) {
                Some(at) => at,
                None => line.len() as int,
            } ==> !#[trigger] slashes_at(line, k),
    decreases line.len() - from,
{
    if from < line.len() && !slashes_at(line, from) {
        lemma_first_slashes(line, from + 1);
    }
}

/// Where no comment starts from `from` up to `at`, the first one starts at `at`
/// or later.
proof fn lemma_comment_at(line: Seq<char>, c: char, from: int, at: int)
    requires
        0 <= from <= at <= line.len(),
        forall|k: int| from <= k < at ==> !#[trigger] bare_at(line, c, k),
    ensures
        comment_from(line, c, from) == comment_from(line, c, at),
    decreases at - from,
{
    if from < at {
        assert(!bare_at(line, c, from));
        lemma_comment_at(line, c, from + 1, at);
    }
}

proof fn lemma_slashes_at(line: Seq<char>, from: int, at: int)
    requires
        0 <= from <= at <= line.len(),
        forall|k: int| from <= k < at ==> !#[trigger] slashes_at(line, k),
    ensures
        slashes_from(line, from) == slashes_from(line, at),
    decreases at - from,
{
    if from < at {
        assert(!slashes_at(line, from));
        lemma_slashes_at(line, from + 1, at);
    }
}

/// A comment starts at the first character for it that is neither in a string
/// nor behind a backslash. What follows that character does not count. There is
/// no comment if and only if there is no such character.
pub proof fn comments_start_at_the_first_bare_character(
    line: Seq<char>,
    c: char,
    rest: Seq<char>,
)
    requires
        !is_quoting(c),
    ensures
        comment_from(line, c, 0) matches Some(at) ==> {
            &&& 0 <= at < line.len()
            &&& line[at] == c
            &&& comment_from(line.take(at), c, 0) is None
            &&& comment_from(line.take(at).push(c) + rest, c, 0) == Some(at)
        },
        comment_from(line, c, 0) is None <==> forall|k: int|
            0 <= k < line.len() && #[trigger] line[k] == c ==> {
                let s = scan(line.take(k));
                s.single || s.double || s.escaped
            },
{
    lemma_comment_bound(line, c, 0);
    lemma_first_comment(line, c, 0);
    match comment_from(line, c, 0) {
        Some(at) => {
            let start = line.take(at);
            let other = start.push(c) + rest;
            assert forall|k: int| 0 <= k < at implies !#[trigger] bare_at(start, c, k) by {
                assert(start.take(k) =~= line.take(k));
                assert(!bare_at(line, c, k));
            }
            lemma_comment_at(start, c, 0, at);
            assert forall|k: int| 0 <= k < at implies !#[trigger] bare_at(other, c, k) by {
                assert(other.take(k) =~= line.take(k));
                assert(!bare_at(line, c, k));
            }
            lemma_comment_at(other, c, 0, at);
            assert(other.take(at) =~= line.take(at));
            assert(bare_at(other, c, at));
            assert(line[at] == c);
        },
        None => {
            assert forall|k: int| 0 <= k < line.len() && #[trigger] line[k] == c implies ({
                let s = scan(line.take(k));
                s.single || s.double || s.escaped
            }) by {
                assert(!bare_at(line, c, k));
            }
        },
    }
}

/// A comment of two slashes starts at the first two slashes that are neither in
/// a string, nor behind a backslash, nor behind a colon. What follows them does
/// not count.
pub proof fn comments_start_at_the_first_bare_slashes(line: Seq<char>, rest: Seq<char>)
    ensures
        slashes_from(line, 0) matches Some(at) ==> {
            let s = scan(line.take(at));
            &&& 0 <= at < line.len() - 1
            &&& line[at] == '/' && line[at + 1] == '/'
            &&& at > 0 ==> line[at - 1] != ':'
            &&& !s.single && !s.double && !s.escaped
            &&& slashes_from(line.take(at), 0) is None
            &&& slashes_from(line.take(at).push('/').push('/') + rest, 0) == Some(at)
        },
        slashes_from(line, 0) is None <==> forall|k: int|
            0 <= k < line.len() ==> !#[trigger] slashes_at(line, k),
{
    lemma_slashes_bound(line, 0);
    lemma_first_slashes(line, 0);
    match slashes_from(line, 0) {
        Some(at) => {
            let start = line.take(at);
            let other = start.push('/').push('/') + rest;
            assert forall|k: int| 0 <= k < at implies !#[trigger] slashes_at(start, k) by {
                assert(start.take(k) =~= line.take(k));
                assert(!slashes_at(line, k));
            }
            lemma_slashes_at(start, 0, at);
            assert forall|k: int| 0 <= k < at implies !#[trigger] slashes_at(other, k) by {
                assert(other.take(k) =~= line.take(k));
                assert(other[k + 1] == line[k + 1]);
                assert(!slashes_at(line, k));
            }
            lemma_slashes_at(other, 0, at);
            assert(other.take(at) =~= line.take(at));
            assert(slashes_at(other, at));
        },
        None => {},
    }
}

/// Two slashes of a line stand before its hash, and can divide.
pub open spec fn divides(line: Seq<char>) -> bool {
    match (comment_from(line, '#', 0), slashes_from(line, 0)) {
        (Some(hash), Some(slashes)) => slashes < hash && can_divide(line.take(slashes)),
        _ => false,
    }
}

/// A line up to its comment has no comment, nor has any shorter start of it.
proof fn lemma_no_comment_before(line: Seq<char>, n: int)
    requires
        0 <= n <= line.len(),
        comment_start(line) matches Some(at) ==> n <= at,
    ensures
        comment_from(line.take(n), '#', 0) is None,
        !divides(line) ==> slashes_from(line.take(n), 0) is None,
{
    let start = line.take(n);
    lemma_comment_bound(line, '#', 0);
    lemma_slashes_bound(line, 0);
    lemma_first_comment(line, '#', 0);
    lemma_first_slashes(line, 0);
    assert forall|k: int| 0 <= k < n implies !#[trigger] bare_at(start, '#', k) by {
        assert(start.take(k) =~= line.take(k));
        assert(!bare_at(line, '#', k));
    }
    lemma_comment_at(start, '#', 0, n);
    if !divides(line) {
        assert forall|k: int| 0 <= k < n implies !#[trigger] slashes_at(start, k) by {
            assert(start.take(k) =~= line.take(k));
            assert(!slashes_at(line, k));
        }
        lemma_slashes_at(start, 0, n);
    }
}

/// What starts with the same white space, and goes on with the same character
/// that is none, is indented as much.
proof fn lemma_same_indent(a: Seq<char>, b: Seq<char>)
    requires
        text::leading_spaces(a) < a.len(),
        text::leading_spaces(a) < b.len() <= a.len(),
        b == a.take(b.len() as int),
    ensures
        text::leading_spaces(b) == text::leading_spaces(a),
    decreases a.len(),
{
    assert(b[0] == a[0]);
    if text::is_space(a[0]) {
        assert(b.skip(1) =~= a.skip(1).take(b.skip(1).len() as int));
        lemma_same_indent(a.skip(1), b.skip(1));
    }
}

proof fn lemma_first_char(s: Seq<char>)
    ensures
        text::leading_spaces(s) < s.len() ==> !text::is_space(s[text::leading_spaces(s) as int]),
    decreases s.len(),
{
    if s.len() > 0 && text::is_space(s[0]) {
        lemma_first_char(s.skip(1));
    }
}

/// White space at the end reaches back no further than to a character that is
/// none.
proof fn lemma_end_kept(s: Seq<char>, i: int)
    requires
        0 <= i < s.len(),
        !text::is_space(s[i]),
    ensures
        text::trailing_spaces(s) < s.len() - i,
    decreases s.len(),
{
    if text::is_space(s.last()) {
        lemma_end_kept(s.drop_last(), i);
    }
}

/// A line that has been stripped holds no comment any more. Slashes that divide
/// stay.
pub proof fn no_comment_is_left(line: Seq<char>)
    ensures
        comment_from(text::trim(stripped(line, false)), '#', 0) is None,
        !divides(text::trim(line)) ==> comment_start(text::trim(stripped(line, false))) is None,
{
    let t = text::trim(line);
    let lead = text::leading_spaces(line) as int;
    text::lemma_leading_spaces_bound(line);
    text::lemma_trailing_spaces_bound(text::trim_start(line));
    lemma_comment_bound(t, '#', 0);
    lemma_slashes_bound(t, 0);
    match comment_start(t) {
        Some(at) => if at == 0 {
            let nothing = Seq::<char>::empty();
            assert(text::trim(nothing) =~= nothing);
        } else {
            let code = line.take(lead + at);
            let cut = text::trim_end(code);
            lemma_first_char(line);
            text::lemma_trailing_spaces_bound(code);
            assert(code[lead] == line[lead]);
            lemma_end_kept(code, lead);
            assert(cut =~= line.take(cut.len() as int));
            lemma_same_indent(line, cut);
            let inner = text::trim_start(cut);
            text::lemma_trailing_spaces_bound(inner);
            let left = text::trim(cut);
            assert(left =~= t.take(left.len() as int));
            lemma_no_comment_before(t, left.len() as int);
        },
        None => {
            assert(t.take(t.len() as int) =~= t);
        },
    }
}

/// A block comment that is JSDoc stays, and another one goes.
pub proof fn jsdoc_stays(comment: Seq<char>)
    ensures
        text::starts_with(comment, "/**"@) ==> kept_comment(comment) == comment,
        !text::starts_with(comment, "/**"@) ==> kept_comment(comment) == Seq::<char>::empty(),
{
}

/// A shortened stack trace has its first five and its last five lines, and at
/// most one other in place of all the rest.
pub proof fn traces_keep_their_ends(trace: Seq<Seq<char>>)
    ensures
        trace.len() <= 10 ==> shortened(trace) == trace,
        trace.len() > 10 ==> shortened(trace).len() == 11 && shortened(trace).take(5) == trace.take(
            5,
        ) && shortened(trace).skip(6) == trace.skip(trace.len() - 5),
{
    if trace.len() > 10 {
        assert(shortened(trace).take(5) =~= trace.take(5));
        assert(shortened(trace).skip(6) =~= trace.skip(trace.len() - 5));
    }
}

proof fn lemma_condensed_length(lines: Seq<Seq<char>>, marks: Seq<LineMarks>, i: int)
    requires
        0 <= i <= lines.len(),
    ensures
        condensed(lines, marks, i).len() <= lines.len() - i,
        !has_long_trace(lines, marks, i) ==> condensed(lines, marks, i) == lines.skip(i),
    decreases lines.len() - i,
{
    if i < lines.len() {
        trace_is_in_text(lines, marks, i);
        match trace_end(lines, marks, i) {
            Some(end) => {
                lemma_condensed_length(lines, marks, end);
                if !has_long_trace(lines, marks, i) {
                    assert(lines.subrange(i, end) + lines.skip(end) =~= lines.skip(i));
                }
            },
            None => {
                lemma_condensed_length(lines, marks, i + 1);
                assert(seq![lines[i]] + lines.skip(i + 1) =~= lines.skip(i));
            },
        }
    } else {
        assert(condensed(lines, marks, i) =~= lines.skip(i));
    }
}

/// Shortening stack traces adds no line, and changes nothing where no stack
/// trace is longer than ten lines.
pub proof fn condensing_adds_no_line(lines: Seq<Seq<char>>, marks: Seq<LineMarks>)
    ensures
        condensed(lines, marks, 0).len() <= lines.len(),
        !has_long_trace(lines, marks, 0) ==> condensed(lines, marks, 0) == lines,
{
    lemma_condensed_length(lines, marks, 0);
    assert(lines.skip(0) =~= lines);
}

/// The first code block of its kind stays, and a later one of the same hash is
/// replaced by a note.
pub proof fn first_block_stays(blocks: Seq<Seq<Option<Seq<char>>>>, i: int, j: int)
    requires
        0 <= i < j < blocks.len(),
    ensures
        !repeated(block_hashes(blocks), i) ==> collapsed_block(blocks, i) == blocks[i][0]->0,
        text::trim(fenced(blocks[j])) == text::trim(fenced(blocks[i])) && tokenizer::tokens(
            fenced(blocks[j]),
        ) is Some ==> collapsed_block(blocks, j) == block_note(
            tokenizer::tokens(fenced(blocks[j]))->0,
        ),
{
    if text::trim(fenced(blocks[j])) == text::trim(fenced(blocks[i])) {
        assert(block_hashes(blocks)[i] == block_hashes(blocks)[j]);
        assert(repeated(block_hashes(blocks), j));
    }
}

/// No two code blocks that stay hold the same, white space around them apart.
pub proof fn kept_blocks_differ(blocks: Seq<Seq<Option<Seq<char>>>>, i: int, j: int)
    requires
        0 <= i < j < blocks.len(),
        !repeated(block_hashes(blocks), j),
    ensures
        text::trim(fenced(blocks[i])) != text::trim(fenced(blocks[j])),
{
    if text::trim(fenced(blocks[i])) == text::trim(fenced(blocks[j])) {
        assert(block_hashes(blocks)[i] == block_hashes(blocks)[j]);
    }
}

/// A text whose code blocks all differ in their hashes is left as it is.
pub proof fn different_blocks_stay(content: Seq<char>)
    ensures
        (forall|i: int, j: int|
            0 <= i < j < patterns::captures(FENCED_CODE_BLOCK@, content).len() ==> block_hash(
                #[trigger] patterns::captures(FENCED_CODE_BLOCK@, content)[i],
            ) != block_hash(#[trigger] patterns::captures(FENCED_CODE_BLOCK@, content)[j]))
            ==> block_stage(content) == unchanged(content),
{
    let blocks = patterns::captures(FENCED_CODE_BLOCK@, content);
    let hashes = block_hashes(blocks);
    if forall|i: int, j: int|
        0 <= i < j < blocks.len() ==> block_hash(#[trigger] blocks[i]) != block_hash(
            #[trigger] blocks[j],
        ) {
        assert forall|j: int| 0 <= j < blocks.len() implies !#[trigger] repeated(hashes, j) by {
            assert forall|k: int| 0 <= k < j implies #[trigger] hashes[k] != hashes[j] by {
                assert(hashes[k] == block_hash(blocks[k]));
                assert(hashes[j] == block_hash(blocks[j]));
            }
        }
        assert forall|j: int| 0 <= j < blocks.len() implies #[trigger] countable(blocks, j) by {
            assert(!repeated(hashes, j));
        }
    }
}

/// Those of the first `n` code blocks that stay.
pub open spec fn kept_blocks(blocks: Seq<Seq<Option<Seq<char>>>>, n: int) -> Seq<
    Seq<Option<Seq<char>>>,
>
    decreases n,
{
    if n <= 0 {
        Seq::empty()
    } else if repeated(block_hashes(blocks), n - 1) {
        kept_blocks(blocks, n - 1)
    } else {
        kept_blocks(blocks, n - 1).push(blocks[n - 1])
    }
}

proof fn lemma_kept_blocks(blocks: Seq<Seq<Option<Seq<char>>>>, n: int)
    requires
        0 <= n <= blocks.len(),
    ensures
        forall|a: int|
            0 <= a < kept_blocks(blocks, n).len() ==> exists|k: int|
                0 <= k < n && block_hashes(blocks)[k] == block_hash(
                    #[trigger] kept_blocks(blocks, n)[a],
                ),
        forall|a: int, b: int|
            0 <= a < b < kept_blocks(blocks, n).len() ==> block_hash(
                #[trigger] kept_blocks(blocks, n)[a],
            ) != block_hash(#[trigger] kept_blocks(blocks, n)[b]),
    decreases n,
{
    if n > 0 {
        lemma_kept_blocks(blocks, n - 1);
        let hashes = block_hashes(blocks);
        let before = kept_blocks(blocks, n - 1);
        let kept = kept_blocks(blocks, n);
        assert(hashes[n - 1] == block_hash(blocks[n - 1]));
        assert forall|a: int| 0 <= a < kept.len() implies exists|k: int|
            0 <= k < n && hashes[k] == block_hash(#[trigger] kept[a]) by {
            if a < before.len() {
                assert(kept[a] == before[a]);
                let k = choose|k: int| 0 <= k < n - 1 && hashes[k] == block_hash(before[a]);
                assert(hashes[k] == block_hash(kept[a]));
            } else {
                assert(hashes[n - 1] == block_hash(kept[a]));
            }
        }
        assert forall|a: int, b: int| 0 <= a < b < kept.len() implies block_hash(
            #[trigger] kept[a],
        ) != block_hash(#[trigger] kept[b]) by {
            assert(kept[a] == before[a]);
            if b < before.len() {
                assert(kept[b] == before[b]);
            } else {
                let k = choose|k: int| 0 <= k < n - 1 && hashes[k] == block_hash(before[a]);
                assert(hashes[k] != hashes[n - 1]);
            }
        }
    }
}

/// A text whose code blocks are those that stayed of another text is left as it
/// is: none of them is repeated.
pub proof fn kept_blocks_are_kept_again(content: Seq<char>, left: Seq<char>)
    ensures
        ({
            let blocks = patterns::captures(FENCED_CODE_BLOCK@, content);
            patterns::captures(FENCED_CODE_BLOCK@, left) == kept_blocks(
                blocks,
                blocks.len() as int,
            ) ==> block_stage(left) == unchanged(left)
        }),
{
    let blocks = patterns::captures(FENCED_CODE_BLOCK@, content);
    lemma_kept_blocks(blocks, blocks.len() as int);
    different_blocks_stay(left);
}

} // verus!
