//! What the structural stages take away of a text, and what they say of it.
use vstd::prelude::*;
use vstd::string::*;
use vstd::utf8::*;

use crate::hashing;
use crate::metrics::EventView;
use crate::patterns;
use crate::pipeline::regex_compress;
use crate::pipeline::regex_compress::{LineMarks, StageView};
use crate::text;
use crate::tokenizer;

verus! {

// ---------------------------------------------------------------------------
// Stages
// ---------------------------------------------------------------------------
/// A stage leaves the text that it made, and tells of it, with the tokens
/// before and after, if and only if there are fewer after. Nothing comes of it
/// only where the tokens of one of the texts cannot be counted.
pub proof fn stages_tell_of_what_they_save(
    before: Seq<char>,
    after: Seq<char>,
    name: Seq<char>,
    reason: Seq<char>,
)
    ensures
        regex_compress::stage(before, after, name, reason) is Some <==> tokenizer::tokens(before)
            is Some && tokenizer::tokens(after) is Some,
        regex_compress::stage(before, after, name, reason) matches Some(s) ==> {
            &&& s.text == after
            &&& s.event is Some <==> tokenizer::tokens(after)->0 < tokenizer::tokens(before)->0
            &&& s.event matches Some(e) ==> e.before == tokenizer::tokens(before)->0 && e.after
                == tokenizer::tokens(after)->0 && e.stage == name && e.reason == reason
        },
{
}

/// What a stage tells, as a list.
pub open spec fn told(s: StageView) -> Seq<EventView> {
    match s.event {
        Some(e) => seq![e],
        None => Seq::empty(),
    }
}

/// The five stages follow one another, each on what the one before it left:
/// docstrings, comments, white space, stack traces and repeated code blocks.
/// What they tell stands in that order.
pub proof fn stages_follow_one_another(t: Seq<char>)
    ensures
        regex_compress::compressed(t) matches Some(c) ==> {
            let s1 = regex_compress::docstring_stage(t)->0;
            let s2 = regex_compress::comment_stage(s1.text)->0;
            let s3 = regex_compress::whitespace_stage(s2.text)->0;
            let s4 = regex_compress::stack_stage(s3.text)->0;
            let s5 = regex_compress::block_stage(s4.text)->0;
            &&& regex_compress::docstring_stage(t) is Some
            &&& regex_compress::comment_stage(s1.text) is Some
            &&& regex_compress::whitespace_stage(s2.text) is Some
            &&& regex_compress::stack_stage(s3.text) is Some
            &&& regex_compress::block_stage(s4.text) is Some
            &&& c.text == s5.text
            &&& c.events == told(s1) + told(s2) + told(s3) + told(s4) + told(s5)
        },
        ({
            let s1 = regex_compress::docstring_stage(t);
            let s2 = regex_compress::comment_stage(s1->0.text);
            let s3 = regex_compress::whitespace_stage(s2->0.text);
            let s4 = regex_compress::stack_stage(s3->0.text);
            let s5 = regex_compress::block_stage(s4->0.text);
            s1 is Some && s2 is Some && s3 is Some && s4 is Some && s5 is Some
                ==> regex_compress::compressed(t) is Some
        }),
{
    reveal_with_fuel(regex_compress::compressed_to, 6);
    match regex_compress::compressed(t) {
        Some(c) => {
            let s1 = regex_compress::docstring_stage(t)->0;
            let s2 = regex_compress::comment_stage(s1.text)->0;
            let s3 = regex_compress::whitespace_stage(s2.text)->0;
            let s4 = regex_compress::stack_stage(s3.text)->0;
            let s5 = regex_compress::block_stage(s4.text)->0;
            assert(c.events =~= told(s1) + told(s2) + told(s3) + told(s4) + told(s5));
        },
        None => {},
    }
}

/// Docstrings of Python go with the quotes around them, and the line of `def`
/// or `class` above them stays. Then go those of modules, JSDoc, and the doc
/// comments of Rust. Of white space go zero-width characters, what stands at the
/// ends of lines, and all but one of the blank lines in a row.
pub proof fn patterns_say_what_goes(t: Seq<char>)
    ensures
        regex_compress::docstring_stage(t) matches Some(s) ==> s.text == patterns::replaced(
            r"(?m)^\s*///.*$|^\s*//!.*$"@,
            patterns::replaced(
                r"/\*\*[\s\S]*?\*/"@,
                patterns::replaced(
                    r#"(?m)^("""[\s\S]*?"""|'''[\s\S]*?''')\s*$"#@,
                    patterns::replaced(
                        r#"(?m)((?:^|\n)\s*(?:def |class |async def )[^\n]*:\s*\n\s*)(?:"""[\s\S]*?"""|'''[\s\S]*?''')"#@,
                        t,
                        "$1"@,
                    ),
                    ""@,
                ),
                ""@,
            ),
            ""@,
        ) && (s.event matches Some(e) ==> e.stage == "B1_docstrings"@),
        regex_compress::comment_stage(t) matches Some(s) ==> s.text
            == regex_compress::without_comments(t) && (s.event matches Some(e) ==> e.stage
            == "B2_comments"@),
        regex_compress::whitespace_stage(t) matches Some(s) ==> s.text == patterns::replaced(
            r"\n\s*\n(\s*\n)+"@,
            patterns::replaced(
                r"(?m)[ \t]+$"@,
                patterns::replaced(r"[\x{FEFF}\x{200B}\x{200C}\x{200D}]"@, t, ""@),
                ""@,
            ),
            "\n\n"@,
        ) && (s.event matches Some(e) ==> e.stage == "B3_whitespace"@),
{
}

// ---------------------------------------------------------------------------
// Stack traces
// ---------------------------------------------------------------------------
/// A line belongs to a Python traceback below its header: it names a file, is
/// indented by four spaces, or is empty.
pub open spec fn below_header(line: Seq<char>, mark: LineMarks) -> bool {
    mark.frame || line.len() == 0 || (line.len() >= 4 && line[0] == ' ' && line[1] == ' ' && line[2]
        == ' ' && line[3] == ' ')
}

proof fn lemma_below_header(line: Seq<char>, mark: LineMarks)
    ensures
        regex_compress::traceback_line(line, mark) == below_header(line, mark),
{
    reveal_strlit("    ");
    let indent = "    "@;
    if text::starts_with(line, indent) {
        assert(line.subrange(0, 4)[0] == line[0] && line.subrange(0, 4)[1] == line[1]
            && line.subrange(0, 4)[2] == line[2] && line.subrange(0, 4)[3] == line[3]);
    }
    if line.len() >= 4 && line[0] == ' ' && line[1] == ' ' && line[2] == ' ' && line[3] == ' ' {
        assert(line.subrange(0, 4) =~= indent);
    }
}

proof fn lemma_node_run(
    trace: Seq<Seq<char>>,
    trace_marks: Seq<LineMarks>,
    rest: Seq<Seq<char>>,
    rest_marks: Seq<LineMarks>,
    i: int,
)
    requires
        trace_marks.len() == trace.len(),
        rest_marks.len() == rest.len(),
        0 <= i <= trace.len(),
        forall|k: int| 0 <= k < trace.len() ==> (#[trigger] trace_marks[k]).node,
        rest.len() > 0 ==> !rest_marks[0].node,
    ensures
        regex_compress::node_end(trace + rest, trace_marks + rest_marks, i) == trace.len(),
    decreases trace.len() - i,
{
    let marks = trace_marks + rest_marks;
    if i < trace.len() {
        assert(marks[i] == trace_marks[i]);
        lemma_node_run(trace, trace_marks, rest, rest_marks, i + 1);
    } else if rest.len() > 0 {
        assert(marks[i] == rest_marks[0]);
    }
}

proof fn lemma_traceback_run(
    trace: Seq<Seq<char>>,
    trace_marks: Seq<LineMarks>,
    rest: Seq<Seq<char>>,
    rest_marks: Seq<LineMarks>,
    i: int,
)
    requires
        trace_marks.len() == trace.len(),
        rest_marks.len() == rest.len(),
        1 <= i <= trace.len(),
        forall|k: int|
            1 <= k < trace.len() - 1 ==> below_header(#[trigger] trace[k], trace_marks[k]),
        trace.len() > 1 && below_header(trace.last(), trace_marks.last()) ==> rest.len() == 0,
        trace.len() == 1 ==> rest.len() == 0,
        i == trace.len() ==> rest.len() == 0,
    ensures
        regex_compress::traceback_end(trace + rest, trace_marks + rest_marks, i) == trace.len(),
    decreases trace.len() - i,
{
    let lines = trace + rest;
    let marks = trace_marks + rest_marks;
    if i < trace.len() {
        assert(lines[i] == trace[i] && marks[i] == trace_marks[i]);
        lemma_below_header(trace[i], trace_marks[i]);
        if below_header(trace[i], trace_marks[i]) {
            lemma_traceback_run(trace, trace_marks, rest, rest_marks, i + 1);
        }
    }
}

proof fn lemma_ends_shifted(
    a: Seq<Seq<char>>,
    am: Seq<LineMarks>,
    b: Seq<Seq<char>>,
    bm: Seq<LineMarks>,
    i: int,
)
    requires
        am.len() == a.len(),
        bm.len() == b.len(),
        0 <= i <= b.len(),
    ensures
        regex_compress::traceback_end(a + b, am + bm, a.len() + i) == a.len()
            + regex_compress::traceback_end(b, bm, i),
        regex_compress::node_end(a + b, am + bm, a.len() + i) == a.len()
            + regex_compress::node_end(b, bm, i),
    decreases b.len() - i,
{
    if i < b.len() {
        assert((a + b)[a.len() + i] == b[i]);
        assert((am + bm)[a.len() + i] == bm[i]);
        lemma_ends_shifted(a, am, b, bm, i + 1);
    }
}

/// What comes of lines does not depend on what stands before them.
proof fn lemma_condensed_shifted(
    a: Seq<Seq<char>>,
    am: Seq<LineMarks>,
    b: Seq<Seq<char>>,
    bm: Seq<LineMarks>,
    i: int,
)
    requires
        am.len() == a.len(),
        bm.len() == b.len(),
        0 <= i <= b.len(),
    ensures
        regex_compress::condensed(a + b, am + bm, a.len() + i) == regex_compress::condensed(
            b,
            bm,
            i,
        ),
        regex_compress::has_long_trace(a + b, am + bm, a.len() + i)
            == regex_compress::has_long_trace(b, bm, i),
    decreases b.len() - i,
{
    if i < b.len() {
        let lines = a + b;
        let marks = am + bm;
        assert(lines[a.len() + i] == b[i]);
        assert(marks[a.len() + i] == bm[i]);
        lemma_ends_shifted(a, am, b, bm, i);
        lemma_ends_shifted(a, am, b, bm, i + 1);
        regex_compress::trace_is_in_text(b, bm, i);
        regex_compress::trace_is_in_text(lines, marks, a.len() + i);
        match regex_compress::trace_end(b, bm, i) {
            Some(end) => {
                assert(regex_compress::trace_end(lines, marks, a.len() + i) == Some(
                    a.len() + end,
                ));
                lemma_condensed_shifted(a, am, b, bm, end);
                assert(lines.subrange(a.len() + i, a.len() + end) =~= b.subrange(i, end));
            },
            None => {
                lemma_condensed_shifted(a, am, b, bm, i + 1);
            },
        }
    }
}

/// A line that starts no stack trace stays where it is.
pub proof fn lines_outside_traces_stay(
    line: Seq<char>,
    mark: LineMarks,
    rest: Seq<Seq<char>>,
    rest_marks: Seq<LineMarks>,
)
    requires
        rest_marks.len() == rest.len(),
        !mark.header && !mark.node,
    ensures
        regex_compress::condensed(seq![line] + rest, seq![mark] + rest_marks, 0) == seq![line]
            + regex_compress::condensed(rest, rest_marks, 0),
        regex_compress::has_long_trace(seq![line] + rest, seq![mark] + rest_marks, 0)
            == regex_compress::has_long_trace(rest, rest_marks, 0),
{
    assert((seq![line] + rest)[0] == line && (seq![mark] + rest_marks)[0] == mark);
    lemma_condensed_shifted(seq![line], seq![mark], rest, rest_marks, 0);
}

/// The lines are one stack trace, and what follows does not belong to it: a run
/// of Node.js stack lines, or the header of a Python traceback, the lines below
/// it and its error line.
pub open spec fn is_trace(
    trace: Seq<Seq<char>>,
    trace_marks: Seq<LineMarks>,
    rest: Seq<Seq<char>>,
    rest_marks: Seq<LineMarks>,
) -> bool {
    &&& trace.len() > 0
    &&& trace_marks.len() == trace.len()
    &&& rest_marks.len() == rest.len()
    &&& if trace_marks[0].header {
        &&& forall|k: int|
            1 <= k < trace.len() - 1 ==> below_header(#[trigger] trace[k], trace_marks[k])
        &&& trace.len() == 1 || below_header(trace.last(), trace_marks.last()) ==> rest.len() == 0
    } else {
        &&& forall|k: int| 0 <= k < trace.len() ==> (#[trigger] trace_marks[k]).node
        &&& rest.len() > 0 ==> !rest_marks[0].node
    }
}

/// Of a stack trace longer than ten lines, the first five and the last five
/// stay, and a line between them says how many have gone. A shorter one stays
/// whole. What follows a stack trace fares as it would alone.
pub proof fn each_trace_keeps_its_ends(
    trace: Seq<Seq<char>>,
    trace_marks: Seq<LineMarks>,
    rest: Seq<Seq<char>>,
    rest_marks: Seq<LineMarks>,
)
    requires
        is_trace(trace, trace_marks, rest, rest_marks),
    ensures
        regex_compress::condensed(trace + rest, trace_marks + rest_marks, 0) == (if trace.len()
            <= 10 {
            trace
        } else {
            trace.take(5) + seq![
                "[... "@ + text::decimal((trace.len() - 10) as nat)
                    + " frames omitted by Janus ...]"@,
            ] + trace.skip(trace.len() - 5)
        }) + regex_compress::condensed(rest, rest_marks, 0),
        regex_compress::has_long_trace(trace + rest, trace_marks + rest_marks, 0) == (trace.len()
            > 10 || regex_compress::has_long_trace(rest, rest_marks, 0)),
{
    let lines = trace + rest;
    let marks = trace_marks + rest_marks;
    assert(lines[0] == trace[0] && marks[0] == trace_marks[0]);
    if trace_marks[0].header {
        lemma_traceback_run(trace, trace_marks, rest, rest_marks, 1);
    } else {
        assert(trace_marks[0].node);
        lemma_node_run(trace, trace_marks, rest, rest_marks, 0);
    }
    assert(regex_compress::trace_end(lines, marks, 0) == Some(trace.len() as int));
    assert(lines.subrange(0, trace.len() as int) =~= trace);
    lemma_condensed_shifted(trace, trace_marks, rest, rest_marks, 0);
}

/// Lines are asked whether they are the header of a Python traceback, name a
/// file in one, or are a line of a Node.js stack trace. A text without a long
/// stack trace comes out as it went in, and any other as its lines with the
/// stack traces among them shortened.
pub proof fn only_long_traces_are_shortened(content: Seq<char>)
    ensures
        ({
            let lines = text::lines(content);
            let marks = lines.map_values(
                |line: Seq<char>|
                    LineMarks {
                        header: patterns::matches_in(
                            r"^Traceback \(most recent call last\):"@,
                            line,
                        ),
                        frame: patterns::matches_in(r#"^\s*File ".*", line \d+"#@, line),
                        node: patterns::matches_in(r"^\s+at .+\(.+:\d+:\d+\)"@, line),
                    },
            );
            regex_compress::stack_stage(content) matches Some(s) ==> {
                &&& !regex_compress::has_long_trace(lines, marks, 0) ==> s.text == content
                    && s.event is None
                &&& regex_compress::has_long_trace(lines, marks, 0) ==> s.text == text::joined(
                    regex_compress::condensed(lines, marks, 0),
                    seq!['\n'],
                )
                &&& s.event matches Some(e) ==> e.stage == "B4_stacktrace"@
            }
        }),
        regex_compress::condensed(Seq::empty(), Seq::empty(), 0) == Seq::<Seq<char>>::empty(),
        !regex_compress::has_long_trace(Seq::empty(), Seq::empty(), 0),
{
    let lines = text::lines(content);
    let marks = lines.map_values(
        |line: Seq<char>|
            LineMarks {
                header: patterns::matches_in(r"^Traceback \(most recent call last\):"@, line),
                frame: patterns::matches_in(r#"^\s*File ".*", line \d+"#@, line),
                node: patterns::matches_in(r"^\s+at .+\(.+:\d+:\d+\)"@, line),
            },
    );
    assert(marks =~= regex_compress::all_marks(lines));
}

// ---------------------------------------------------------------------------
// Repeated code blocks
// ---------------------------------------------------------------------------
/// Two code blocks hold the same, white space around it apart, as far as their
/// hashes tell.
pub open spec fn same_code(a: Seq<Option<Seq<char>>>, b: Seq<Option<Seq<char>>>) -> bool {
    hashing::xxh3(encode_utf8(text::trim(a[1]->0))) == hashing::xxh3(
        encode_utf8(text::trim(b[1]->0)),
    )
}

/// A code block is replaced if and only if one before it holds the same. The
/// text that stands for it says how many tokens it had.
pub proof fn only_repeated_blocks_are_replaced(blocks: Seq<Seq<Option<Seq<char>>>>, j: int)
    requires
        0 <= j < blocks.len(),
        forall|i: int|
            0 <= i < blocks.len() ==> (#[trigger] blocks[i]).len() > 1 && blocks[i][1] is Some,
    ensures
        ({
            let again = exists|i: int| 0 <= i < j && same_code(#[trigger] blocks[i], blocks[j]);
            &&& regex_compress::collapsed_block(blocks, j) == if again {
                "[Janus: duplicate of code block above — "@ + text::decimal(
                    tokenizer::tokens(blocks[j][1]->0)->0,
                ) + " tokens omitted]"@
            } else {
                blocks[j][0]->0
            }
            &&& regex_compress::repeated(regex_compress::block_hashes(blocks), j) == again
        }),
{
    let hashes = regex_compress::block_hashes(blocks);
    assert forall|i: int| 0 <= i < blocks.len() implies #[trigger] hashes[i] == hashing::xxh3(
        encode_utf8(text::trim(blocks[i][1]->0)),
    ) by {
        assert(hashes[i] == regex_compress::block_hash(blocks[i]));
    }
    if regex_compress::repeated(hashes, j) {
        let i = choose|i: int| 0 <= i < j && #[trigger] hashes[i] == hashes[j];
        assert(same_code(blocks[i], blocks[j]));
    }
    if exists|i: int| 0 <= i < j && same_code(#[trigger] blocks[i], blocks[j]) {
        let i = choose|i: int| 0 <= i < j && same_code(#[trigger] blocks[i], blocks[j]);
        assert(hashes[i] == hashes[j]);
    }
}

/// A text without a repeated code block comes out as it went in. Of any other,
/// what stands around the code blocks stays, and each block is in its place, or
/// what stands for it.
pub proof fn text_around_code_blocks_stays(content: Seq<char>)
    ensures
        ({
            let pattern = r"(?ms)^```[^\n]*\n(.*?)^```"@;
            let blocks = patterns::captures(pattern, content);
            let again = exists|j: int|
                0 <= j < blocks.len() && #[trigger] regex_compress::repeated(
                    regex_compress::block_hashes(blocks),
                    j,
                );
            regex_compress::block_stage(content) matches Some(s) ==> {
                &&& !again ==> s.text == content && s.event is None
                &&& again ==> s.text == patterns::woven(
                    patterns::gaps(pattern, content),
                    Seq::new(blocks.len(), |j: int| regex_compress::collapsed_block(blocks, j)),
                )
                &&& s.event matches Some(e) ==> e.stage == "B5_dedup_blocks"@
            }
        }),
{
}

} // verus!
