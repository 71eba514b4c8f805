//! Pruning of the bodies of functions that a query does not mention.
use vstd::prelude::*;
use vstd::string::*;
use vstd::utf8::*;

use crate::metrics;
use crate::metrics::{CompressionEvent, EventView};
use crate::patterns;
use crate::pipeline::regex_compress;
use crate::text;
use crate::tokenizer;
use crate::tokenizer::Tokenizer;

verus! {

// ---------------------------------------------------------------------------
// Languages
// ---------------------------------------------------------------------------
/// A language that code can be parsed in.
#[derive(Clone, Copy, Debug, PartialEq, Eq, Structural)]
pub enum Lang {
    Python,
    JavaScript,
    Rust,
    Go,
}

/// The language that a tag in lower case names. TypeScript is parsed as
/// JavaScript.
pub open spec fn lang_of(tag: Seq<char>) -> Option<Lang> {
    if tag == "python"@ || tag == "py"@ {
        Some(Lang::Python)
    } else if tag == "javascript"@ || tag == "js"@ || tag == "typescript"@ || tag == "ts"@ || tag
        == "tsx"@ || tag == "jsx"@ {
        Some(Lang::JavaScript)
    } else if tag == "rust"@ || tag == "rs"@ {
        Some(Lang::Rust)
    } else if tag == "go"@ || tag == "golang"@ {
        Some(Lang::Go)
    } else {
        None
    }
}

/// The language that a tag in lower case names.
pub fn language(tag: &str) -> (r: Option<Lang>)
    ensures
        r == lang_of(tag@),
{
    if text::same_text(tag, "python") || text::same_text(tag, "py") {
        Some(Lang::Python)
    } else if text::same_text(tag, "javascript") || text::same_text(tag, "js") || text::same_text(
        tag,
        "typescript",
    ) || text::same_text(tag, "ts") || text::same_text(tag, "tsx") || text::same_text(tag, "jsx") {
        Some(Lang::JavaScript)
    } else if text::same_text(tag, "rust") || text::same_text(tag, "rs") {
        Some(Lang::Rust)
    } else if text::same_text(tag, "go") || text::same_text(tag, "golang") {
        Some(Lang::Go)
    } else {
        None
    }
}

/// The language that a tag names, in upper or lower case.
pub fn detect_language(tag: &str) -> (r: Option<Lang>)
    ensures
        r == lang_of(text::lowercase(tag@)),
{
    language(text::lower(tag).as_str())
}

/// The name of a language, which is also one of its tags.
pub open spec fn lang_name(lang: Lang) -> Seq<char> {
    match lang {
        Lang::Python => "python"@,
        Lang::JavaScript => "javascript"@,
        Lang::Rust => "rust"@,
        Lang::Go => "go"@,
    }
}

/// Tags are known in upper and in lower case.
pub proof fn tags_are_known_in_any_case(tag: Seq<char>)
    requires
        text::is_ascii(tag),
    ensures
        lang_of(text::lowercase(text::ascii_uppercase(tag))) == lang_of(text::lowercase(tag)),
        lang_of(text::lowercase(text::lowercase(tag))) == lang_of(text::lowercase(tag)),
{
    text::case_is_lost_in_lower_case(tag);
}

/// The name of a language names it.
pub proof fn languages_are_known_by_their_names(lang: Lang)
    ensures
        lang_of(lang_name(lang)) == Some(lang),
        text::lowercase(lang_name(lang)) == lang_name(lang),
{
    reveal_strlit("python");
    reveal_strlit("py");
    reveal_strlit("javascript");
    reveal_strlit("js");
    reveal_strlit("typescript");
    reveal_strlit("ts");
    reveal_strlit("tsx");
    reveal_strlit("jsx");
    reveal_strlit("rust");
    reveal_strlit("rs");
    reveal_strlit("go");
    reveal_strlit("golang");
    assert("python"@.len() == 6 && "py"@.len() == 2 && "javascript"@.len() == 10 && "js"@.len() == 2
        && "typescript"@.len() == 10 && "ts"@.len() == 2 && "tsx"@.len() == 3 && "jsx"@.len() == 3
        && "rust"@.len() == 4 && "rs"@.len() == 2 && "go"@.len() == 2 && "golang"@.len() == 6);
    assert("go"@[0] == 'g' && "py"@[0] == 'p' && "js"@[0] == 'j' && "ts"@[0] == 't' && "rs"@[0]
        == 'r');
    assert(text::lowercase(lang_name(lang)) =~= lang_name(lang));
}

// ---------------------------------------------------------------------------
// Syntax
// ---------------------------------------------------------------------------
/// A node of a syntax tree: its kind, and the bytes from and up to which it
/// reaches.
pub type Part = (String, usize, usize);

/// A node of a syntax tree with its children.
pub type Item = (Part, Vec<Part>);

/// What a node is.
pub struct PartView {
    pub kind: Seq<char>,
    pub start: int,
    pub end: int,
}

/// What a node with its children is.
pub struct ItemView {
    pub part: PartView,
    pub children: Seq<PartView>,
}

pub open spec fn part_view(p: Part) -> PartView {
    PartView { kind: p.0@, start: p.1 as int, end: p.2 as int }
}

pub open spec fn part_views(parts: Seq<Part>) -> Seq<PartView> {
    parts.map_values(|p: Part| part_view(p))
}

pub open spec fn item_view(item: Item) -> ItemView {
    ItemView { part: part_view(item.0), children: part_views(item.1@) }
}

pub open spec fn item_views(items: Seq<Item>) -> Seq<ItemView> {
    items.map_values(|item: Item| item_view(item))
}

/// The children of the root of the syntax tree of some code, each with its own
/// children.
pub uninterp spec fn syntax(lang: Lang, code: Seq<char>) -> Option<Seq<ItemView>>;

/// Parses code with `tree_sitter::Parser::parse` and the grammar of its
/// language, and walks the children and grandchildren of the root with
/// `Node::children`. What comes out depends on the language and the code
/// alone; nothing is said of where the nodes lie. `tree_sitter` counts bytes
/// in 32 bits.
#[verifier::external_body]
fn parse(lang: Lang, code: &str) -> (r: Option<Vec<Item>>)
    requires
        encode_utf8(code@).len() <= u32::MAX,
    ensures
        r matches Some(items) ==> syntax(lang, code@) == Some(item_views(items@)),
        r is None ==> syntax(lang, code@) is None,
{
    let grammar = match lang {
        Lang::Python => tree_sitter_python::LANGUAGE,
        Lang::JavaScript => tree_sitter_javascript::LANGUAGE,
        Lang::Rust => tree_sitter_rust::LANGUAGE,
        Lang::Go => tree_sitter_go::LANGUAGE,
    };
    let mut parser = tree_sitter::Parser::new();
    parser.set_language(&grammar.into()).ok()?;
    let tree = parser.parse(code, None)?;
    let root = tree.root_node();
    let part = |n: tree_sitter::Node| (n.kind().to_string(), n.start_byte(), n.end_byte());
    let item = |n: tree_sitter::Node| (part(n), n.children(&mut n.walk()).map(part).collect());
    let items = root.children(&mut root.walk()).map(item).collect();
    Some(items)
}

/// The children of the root of the syntax tree of code that is short enough to
/// be parsed.
pub open spec fn parsed(lang: Lang, code: Seq<char>) -> Option<Seq<ItemView>> {
    if encode_utf8(code).len() <= u32::MAX {
        syntax(lang, code)
    } else {
        None
    }
}

/// Parses code that is short enough.
fn parse_code(lang: Lang, code: &str) -> (r: Option<Vec<Item>>)
    ensures
        r matches Some(items) ==> parsed(lang, code@) == Some(item_views(items@)),
        r is None ==> parsed(lang, code@) is None,
{
    if code.as_bytes().len() as u64 <= 0xffff_ffffu64 {
        parse(lang, code)
    } else {
        None
    }
}

// ---------------------------------------------------------------------------
// From bytes to characters
// ---------------------------------------------------------------------------
/// The character from `from` on before which there are `byte` bytes.
pub open spec fn char_from(code: Seq<char>, byte: int, from: int) -> Option<int>
    decreases code.len() - from + 1,
{
    if from < 0 || from > code.len() {
        None
    } else if encode_utf8(code.take(from)).len() == byte {
        Some(from)
    } else {
        char_from(code, byte, from + 1)
    }
}

/// The character before which there are `byte` bytes. There is none where the
/// bytes end inside a character or are more than there are.
pub open spec fn char_at(code: Seq<char>, byte: int) -> Option<int> {
    char_from(code, byte, 0)
}

proof fn lemma_encode_push(s: Seq<char>, c: char)
    ensures
        encode_utf8(s.push(c)) == encode_utf8(s) + encode_scalar(c as u32),
    decreases s.len(),
{
    if s.len() == 0 {
        reveal_with_fuel(encode_utf8, 2);
        assert(s.push(c).drop_first() =~= Seq::empty());
        assert(encode_utf8(s.push(c)) =~= encode_utf8(s) + encode_scalar(c as u32));
    } else {
        lemma_encode_push(s.drop_first(), c);
        assert(s.push(c).drop_first() =~= s.drop_first().push(c));
        assert(encode_utf8(s.push(c)) =~= encode_utf8(s) + encode_scalar(c as u32));
    }
}

proof fn lemma_char_from_bound(code: Seq<char>, byte: int, from: int)
    ensures
        char_from(code, byte, from) matches Some(k) ==> from <= k <= code.len(),
    decreases code.len() - from + 1,
{
    if 0 <= from <= code.len() && encode_utf8(code.take(from)).len() != byte {
        lemma_char_from_bound(code, byte, from + 1);
    }
}

/// How many bytes a character takes.
fn width(c: char) -> (r: usize)
    ensures
        r == encode_scalar(c as u32).len(),
        1 <= r <= 4,
{
    let u = c as u32;
    if u <= 0x7f {
        1
    } else if u <= 0x7ff {
        2
    } else if u <= 0xffff {
        3
    } else {
        4
    }
}

/// Finds the character before which there are `byte` bytes.
fn find_char(code: &[char], byte: usize) -> (r: Option<usize>)
    ensures
        r matches Some(k) ==> char_at(code@, byte as int) == Some(k as int) && k <= code@.len(),
        r is None ==> char_at(code@, byte as int) is None,
{
    let mut left: usize = byte;
    let mut k: usize = 0;
    assert(code@.take(0) =~= Seq::empty());
    while k < code.len()
        invariant
            k <= code@.len(),
            encode_utf8(code@.take(k as int)).len() + left == byte,
            char_at(code@, byte as int) == char_from(code@, byte as int, k as int),
        decreases code@.len() - k,
    {
        if left == 0 {
            return Some(k);
        }
        let w = width(code[k]);
        proof {
            lemma_encode_push(code@.take(k as int), code@[k as int]);
            assert(code@.take(k as int).push(code@[k as int]) =~= code@.take(k + 1));
        }
        if w > left {
            proof {
                lemma_beyond(code@, byte as int, k + 1);
            }
            return None;
        }
        left = left - w;
        k += 1;
    }
    if left == 0 {
        Some(k)
    } else {
        assert(char_from(code@, byte as int, k + 1) is None);
        None
    }
}

/// Behind more than `byte` bytes there is no character before which there are
/// `byte` bytes.
proof fn lemma_beyond(code: Seq<char>, byte: int, from: int)
    requires
        0 <= from <= code.len(),
        encode_utf8(code.take(from)).len() > byte,
    ensures
        char_from(code, byte, from) is None,
    decreases code.len() - from,
{
    if from < code.len() {
        lemma_encode_push(code.take(from), code[from]);
        assert(code.take(from).push(code[from]) =~= code.take(from + 1));
        lemma_beyond(code, byte, from + 1);
    } else {
        assert(char_from(code, byte, from + 1) is None);
    }
}

// ---------------------------------------------------------------------------
// Functions
// ---------------------------------------------------------------------------
/// The kinds of node that are functions, methods, classes or impl blocks.
pub open spec fn is_function_kind(kind: Seq<char>) -> bool {
    kind == "function_definition"@ || kind == "function_declaration"@ || kind
        == "method_definition"@ || kind == "class_definition"@ || kind == "class_declaration"@
        || kind == "function_item"@ || kind == "impl_item"@
}

/// The kinds of node that are names.
pub open spec fn is_name_kind(kind: Seq<char>) -> bool {
    kind == "name"@ || kind == "identifier"@ || kind == "type_identifier"@
}

/// The kinds of node that are bodies.
pub open spec fn is_body_kind(kind: Seq<char>) -> bool {
    kind == "block"@ || kind == "statement_block"@ || kind == "class_body"@ || kind
        == "declaration_list"@ || kind == "function_body"@
}

/// The first of `parts` that is a name.
pub open spec fn first_name(parts: Seq<PartView>) -> Option<PartView>
    decreases parts.len(),
{
    if parts.len() == 0 {
        None
    } else if is_name_kind(parts[0].kind) {
        Some(parts[0])
    } else {
        first_name(parts.skip(1))
    }
}

/// The first of `parts` that is a body.
pub open spec fn first_body(parts: Seq<PartView>) -> Option<PartView>
    decreases parts.len(),
{
    if parts.len() == 0 {
        None
    } else if is_body_kind(parts[0].kind) {
        Some(parts[0])
    } else {
        first_body(parts.skip(1))
    }
}

/// The characters that bytes of some code make, if they begin and end with a
/// character.
pub open spec fn slice(code: Seq<char>, start: int, end: int) -> Option<Seq<char>> {
    match (char_at(code, start), char_at(code, end)) {
        (Some(s), Some(e)) => if s <= e {
            Some(code.subrange(s, e))
        } else {
            None
        },
        _ => None,
    }
}

/// A function that can be pruned: the characters from and up to which it
/// reaches, its name, what stands before its body, and its body.
pub struct CandidateView {
    pub start: int,
    pub end: int,
    pub name: Seq<char>,
    pub signature: Seq<char>,
    pub body: Seq<char>,
}

/// The function that a node is, if it has a name and a body of three lines or
/// more.
pub open spec fn candidate(code: Seq<char>, item: ItemView) -> Option<CandidateView> {
    let part = item.part;
    match (first_name(item.children), first_body(item.children)) {
        (Some(n), Some(b)) => match (
            slice(code, n.start, n.end),
            slice(code, part.start, part.end),
            slice(code, part.start, b.start),
            slice(code, b.start, b.end),
        ) {
            (Some(name), Some(_), Some(signature), Some(body)) => if is_function_kind(part.kind)
                && name.len() > 0 && text::lines(body).len() >= 3 {
                Some(
                    CandidateView {
                        start: char_at(code, part.start)->0,
                        end: char_at(code, part.end)->0,
                        name,
                        signature: text::trim_end(signature),
                        body,
                    },
                )
            } else {
                None
            },
            _ => None,
        },
        _ => None,
    }
}

/// The functions that nodes are.
pub open spec fn candidates(code: Seq<char>, items: Seq<ItemView>) -> Seq<CandidateView>
    decreases items.len(),
{
    if items.len() == 0 {
        Seq::empty()
    } else {
        match candidate(code, items.last()) {
            Some(c) => candidates(code, items.drop_last()).push(c),
            None => candidates(code, items.drop_last()),
        }
    }
}

/// A function that can be pruned.
pub struct Candidate {
    pub start: usize,
    pub end: usize,
    pub name: String,
    pub signature: String,
    pub body: String,
}

impl View for Candidate {
    type V = CandidateView;

    open spec fn view(&self) -> CandidateView {
        CandidateView {
            start: self.start as int,
            end: self.end as int,
            name: self.name@,
            signature: self.signature@,
            body: self.body@,
        }
    }
}

pub open spec fn candidate_views(found: Seq<Candidate>) -> Seq<CandidateView> {
    found.map_values(|c: Candidate| c@)
}

fn function_kind(kind: &str) -> (r: bool)
    ensures
        r == is_function_kind(kind@),
{
    text::same_text(kind, "function_definition") || text::same_text(kind, "function_declaration")
        || text::same_text(kind, "method_definition") || text::same_text(kind, "class_definition")
        || text::same_text(kind, "class_declaration") || text::same_text(kind, "function_item")
        || text::same_text(kind, "impl_item")
}

fn name_kind(kind: &str) -> (r: bool)
    ensures
        r == is_name_kind(kind@),
{
    text::same_text(kind, "name") || text::same_text(kind, "identifier") || text::same_text(
        kind,
        "type_identifier",
    )
}

fn body_kind(kind: &str) -> (r: bool)
    ensures
        r == is_body_kind(kind@),
{
    text::same_text(kind, "block") || text::same_text(kind, "statement_block") || text::same_text(
        kind,
        "class_body",
    ) || text::same_text(kind, "declaration_list") || text::same_text(kind, "function_body")
}

/// Finds the first of `parts` that is a name.
fn extract_function_name(parts: &Vec<Part>) -> (r: Option<usize>)
    ensures
        r matches Some(i) ==> i < parts@.len() && first_name(part_views(parts@)) == Some(
            part_view(parts@[i as int]),
        ),
        r is None ==> first_name(part_views(parts@)) is None,
{
    let ghost views = part_views(parts@);
    let mut i: usize = 0;
    assert(views.skip(0) =~= views);
    while i < parts.len()
        invariant
            i <= parts@.len(),
            views == part_views(parts@),
            first_name(views) == first_name(views.skip(i as int)),
        decreases parts@.len() - i,
    {
        assert(views.skip(i as int)[0] == part_view(parts@[i as int]));
        assert(views.skip(i as int).skip(1) =~= views.skip(i + 1));
        if name_kind(parts[i].0.as_str()) {
            return Some(i);
        }
        i += 1;
    }
    None
}

/// Finds the first of `parts` that is a body.
fn find_body_node(parts: &Vec<Part>) -> (r: Option<usize>)
    ensures
        r matches Some(i) ==> i < parts@.len() && first_body(part_views(parts@)) == Some(
            part_view(parts@[i as int]),
        ),
        r is None ==> first_body(part_views(parts@)) is None,
{
    let ghost views = part_views(parts@);
    let mut i: usize = 0;
    assert(views.skip(0) =~= views);
    while i < parts.len()
        invariant
            i <= parts@.len(),
            views == part_views(parts@),
            first_body(views) == first_body(views.skip(i as int)),
        decreases parts@.len() - i,
    {
        assert(views.skip(i as int)[0] == part_view(parts@[i as int]));
        assert(views.skip(i as int).skip(1) =~= views.skip(i + 1));
        if body_kind(parts[i].0.as_str()) {
            return Some(i);
        }
        i += 1;
    }
    None
}

/// The characters that bytes of some code make.
fn slice_chars(code: &[char], start: usize, end: usize) -> (r: Option<Vec<char>>)
    ensures
        r matches Some(t) ==> slice(code@, start as int, end as int) == Some(t@),
        r is None ==> slice(code@, start as int, end as int) is None,
{
    match (find_char(code, start), find_char(code, end)) {
        (Some(s), Some(e)) => {
            if s <= e {
                Some(text::sub_chars(code, s, e))
            } else {
                None
            }
        },
        _ => None,
    }
}

/// The function that a node is.
fn candidate_of(code: &[char], item: &Item) -> (r: Option<Candidate>)
    ensures
        match r {
            Some(c) => candidate(code@, item_view(*item)) == Some(c@),
            None => candidate(code@, item_view(*item)) is None,
        },
{
    let n: usize = match extract_function_name(&item.1) {
        Some(n) => n,
        None => {
            return None;
        },
    };
    let b: usize = match find_body_node(&item.1) {
        Some(b) => b,
        None => {
            return None;
        },
    };
    let part = &item.0;
    let (name_start, name_end) = (item.1[n].1, item.1[n].2);
    let (body_start, body_end) = (item.1[b].1, item.1[b].2);
    let name = match slice_chars(code, name_start, name_end) {
        Some(t) => t,
        None => {
            return None;
        },
    };
    let signature = match slice_chars(code, part.1, body_start) {
        Some(t) => t,
        None => {
            return None;
        },
    };
    let body = match slice_chars(code, body_start, body_end) {
        Some(t) => t,
        None => {
            return None;
        },
    };
    match (find_char(code, part.1), find_char(code, part.2)) {
        (Some(start), Some(end)) => {
            let lines = text::split_lines(body.as_slice());
            assert(text::views(lines@).len() == lines@.len());
            if start <= end && function_kind(part.0.as_str()) && name.len() > 0 && lines.len()
                >= 3 {
                let before = text::trimmed_end(signature.as_slice());
                Some(
                    Candidate {
                        start,
                        end,
                        name: text::text_of(name.as_slice()),
                        signature: text::text_of(before.as_slice()),
                        body: text::text_of(body.as_slice()),
                    },
                )
            } else {
                None
            }
        },
        _ => None,
    }
}

/// Collects the functions that nodes are.
pub fn collect_functions(code: &[char], items: &Vec<Item>) -> (r: Vec<Candidate>)
    ensures
        candidate_views(r@) == candidates(code@, item_views(items@)),
{
    let ghost views = item_views(items@);
    let mut out: Vec<Candidate> = Vec::new();
    let mut i: usize = 0;
    assert(views.take(0) =~= Seq::empty());
    assert(candidate_views(out@) =~= Seq::empty());
    while i < items.len()
        invariant
            i <= items@.len(),
            views == item_views(items@),
            candidate_views(out@) == candidates(code@, views.take(i as int)),
        decreases items@.len() - i,
    {
        assert(views.take(i + 1).drop_last() =~= views.take(i as int));
        assert(views.take(i + 1).last() == item_view(items@[i as int]));
        match candidate_of(code, &items[i]) {
            Some(c) => {
                let ghost before = out@;
                out.push(c);
                assert(candidate_views(out@) =~= candidate_views(before).push(c@));
            },
            None => {},
        }
        i += 1;
    }
    assert(views.take(views.len() as int) =~= views);
    out
}

// ---------------------------------------------------------------------------
// Pruning
// ---------------------------------------------------------------------------
/// A function of some code: the characters from and up to which it reaches,
/// what stands before its body, the tokens of its body, and whether the query
/// mentions it.
pub struct FunctionView {
    pub start: int,
    pub end: int,
    pub signature: Seq<char>,
    pub body_tokens: nat,
    pub referenced: bool,
}

/// What a pruned function is replaced by.
pub open spec fn stub(signature: Seq<char>, body_tokens: nat, lang: Lang) -> Seq<char> {
    match lang {
        Lang::Python => signature + "    # [Janus: body pruned — "@ + text::decimal(body_tokens)
            + " tokens]"@,
        _ => signature + " {\n    // [Janus: body pruned — "@ + text::decimal(body_tokens)
            + " tokens]\n}"@,
    }
}

/// The function at `i` lies within another one.
pub open spec fn dominated(functions: Seq<FunctionView>, i: int) -> bool {
    exists|j: int|
        0 <= j < functions.len() && j != i && (#[trigger] functions[j]).start
            <= functions[i].start && functions[i].end <= functions[j].end
}

/// The function at `i` is to be pruned: the query does not mention it, and it
/// does not lie within another one.
pub open spec fn prunable(functions: Seq<FunctionView>, i: int) -> bool {
    !functions[i].referenced && !dominated(functions, i)
}

/// Code up to some place, with what has been pruned of it replaced.
pub struct SpliceView {
    pub out: Seq<char>,
    pub at: int,
}

/// The code up to the end of the last of the first `n` functions that is
/// pruned. A function that starts before that of an earlier one ends is left
/// as it is.
pub open spec fn spliced_to(
    code: Seq<char>,
    functions: Seq<FunctionView>,
    lang: Lang,
    n: int,
) -> SpliceView
    decreases n,
{
    if n <= 0 {
        SpliceView { out: Seq::empty(), at: 0 }
    } else {
        let before = spliced_to(code, functions, lang, n - 1);
        let f = functions[n - 1];
        if prunable(functions, n - 1) && before.at <= f.start {
            SpliceView {
                out: before.out + code.subrange(before.at, f.start) + stub(
                    f.signature,
                    f.body_tokens,
                    lang,
                ),
                at: f.end,
            }
        } else {
            before
        }
    }
}

/// Code with the functions that are to be pruned replaced by stubs.
pub open spec fn spliced(code: Seq<char>, functions: Seq<FunctionView>, lang: Lang) -> Seq<char> {
    let done = spliced_to(code, functions, lang, functions.len() as int);
    done.out + code.skip(done.at)
}

/// The query mentions every function.
pub open spec fn all_referenced(functions: Seq<FunctionView>) -> bool {
    forall|i: int| 0 <= i < functions.len() ==> (#[trigger] functions[i]).referenced
}

/// Code with its functions pruned, unless the query mentions all of them.
pub open spec fn pruned(code: Seq<char>, functions: Seq<FunctionView>, lang: Lang) -> Option<
    Seq<char>,
> {
    if all_referenced(functions) {
        None
    } else {
        Some(spliced(code, functions, lang))
    }
}

/// Functions lie inside the code.
pub open spec fn within(code: Seq<char>, functions: Seq<FunctionView>) -> bool {
    forall|i: int|
        0 <= i < functions.len() ==> 0 <= (#[trigger] functions[i]).start <= functions[i].end
            <= code.len()
}

/// A function of some code.
pub struct FunctionInfo {
    pub start: usize,
    pub end: usize,
    pub signature: String,
    pub body_token_count: usize,
    pub is_referenced: bool,
}

impl View for FunctionInfo {
    type V = FunctionView;

    open spec fn view(&self) -> FunctionView {
        FunctionView {
            start: self.start as int,
            end: self.end as int,
            signature: self.signature@,
            body_tokens: self.body_token_count as nat,
            referenced: self.is_referenced,
        }
    }
}

pub open spec fn function_views(functions: Seq<FunctionInfo>) -> Seq<FunctionView> {
    functions.map_values(|f: FunctionInfo| f@)
}

/// Builds what a pruned function is replaced by.
pub fn build_stub(signature: &str, body_tokens: usize, lang: Lang) -> (r: Vec<char>)
    ensures
        r@ == stub(signature@, body_tokens as nat, lang),
{
    let mut out = text::chars_of(signature);
    let number = text::decimal_chars(body_tokens as u64);
    match lang {
        Lang::Python => {
            text::append_str(&mut out, "    # [Janus: body pruned — ");
            text::append_chars(&mut out, number.as_slice());
            text::append_str(&mut out, " tokens]");
        },
        _ => {
            text::append_str(&mut out, " {\n    // [Janus: body pruned — ");
            text::append_chars(&mut out, number.as_slice());
            text::append_str(&mut out, " tokens]\n}");
        },
    }
    out
}

/// Whether the function at `i` lies within another one.
fn is_dominated(functions: &Vec<FunctionInfo>, i: usize) -> (r: bool)
    requires
        i < functions@.len(),
    ensures
        r == dominated(function_views(functions@), i as int),
{
    let ghost views = function_views(functions@);
    let mut j: usize = 0;
    while j < functions.len()
        invariant
            j <= functions@.len(),
            i < functions@.len(),
            views == function_views(functions@),
            forall|k: int|
                0 <= k < j && k != i ==> !((#[trigger] views[k]).start <= views[i as int].start
                    && views[i as int].end <= views[k].end),
        decreases functions@.len() - j,
    {
        if j != i && functions[j].start <= functions[i].start && functions[i].end
            <= functions[j].end {
            assert(views[j as int].start <= views[i as int].start);
            return true;
        }
        j += 1;
    }
    false
}

proof fn lemma_spliced_at(code: Seq<char>, functions: Seq<FunctionView>, lang: Lang, n: int)
    requires
        within(code, functions),
        0 <= n <= functions.len(),
    ensures
        0 <= spliced_to(code, functions, lang, n).at <= code.len(),
    decreases n,
{
    if n > 0 {
        lemma_spliced_at(code, functions, lang, n - 1);
    }
}

/// Prunes the functions of some code that the query does not mention. Returns
/// `None` where it mentions all of them.
pub fn prune_functions(code: &[char], functions: &Vec<FunctionInfo>, lang: Lang) -> (r: Option<
    Vec<char>,
>)
    requires
        within(code@, function_views(functions@)),
    ensures
        match pruned(code@, function_views(functions@), lang) {
            Some(t) => r matches Some(out) && out@ == t,
            None => r is None,
        },
{
    let ghost views = function_views(functions@);
    let mut out: Vec<char> = Vec::new();
    let mut at: usize = 0;
    let mut all = true;
    let mut i: usize = 0;
    while i < functions.len()
        invariant
            i <= functions@.len(),
            views == function_views(functions@),
            within(code@, views),
            at <= code@.len(),
            out@ == spliced_to(code@, views, lang, i as int).out,
            at == spliced_to(code@, views, lang, i as int).at,
            all == forall|k: int| 0 <= k < i ==> (#[trigger] views[k]).referenced,
        decreases functions@.len() - i,
    {
        let f = &functions[i];
        assert(views[i as int] == f@);
        if !f.is_referenced {
            assert(!views[i as int].referenced);
            all = false;
            if !is_dominated(functions, i) && at <= f.start {
                let ghost before = out@;
                let kept = text::sub_chars(code, at, f.start);
                text::append_chars(&mut out, kept.as_slice());
                let replacement = build_stub(f.signature.as_str(), f.body_token_count, lang);
                text::append_chars(&mut out, replacement.as_slice());
                assert(out@ =~= before + code@.subrange(at as int, f.start as int) + stub(
                    f.signature@,
                    f.body_token_count as nat,
                    lang,
                ));
                at = f.end;
            }
        }
        i += 1;
    }
    if all {
        return None;
    }
    let rest = text::sub_chars(code, at, code.len());
    assert(rest@ =~= code@.skip(at as int));
    text::append_chars(&mut out, rest.as_slice());
    Some(out)
}

// ---------------------------------------------------------------------------
// Code blocks
// ---------------------------------------------------------------------------
/// A fenced code block with a language tag; the tag and the code are its
/// groups.
pub const FENCED_BLOCK: &'static str = r"(?ms)^```(\w+)\n(.*?)^```";

/// The compiled pattern of a code block.
pub struct CodeBlocks {
    fenced_block: regex::Regex,
}

impl CodeBlocks {
    #[verifier::type_invariant]
    spec fn well_formed(self) -> bool {
        patterns::pattern_of(self.fenced_block) == FENCED_BLOCK@
    }

    /// Compiles the pattern.
    pub fn new() -> (r: Option<Self>)
        ensures
            r is Some <==> patterns::compiles(FENCED_BLOCK@),
    {
        Some(CodeBlocks { fenced_block: patterns::compile(FENCED_BLOCK)? })
    }
}

/// A function that can be pruned, once it has been held against a query in
/// lower case and its tokens have been counted.
pub open spec fn measured(c: CandidateView, query: Seq<char>) -> Option<FunctionView> {
    match tokenizer::tokens(c.body) {
        Some(n) => Some(
            FunctionView {
                start: c.start,
                end: c.end,
                signature: c.signature,
                body_tokens: n,
                referenced: text::contains_text(query, text::lowercase(c.name)),
            },
        ),
        None => None,
    }
}

/// The same of several; nothing comes of it where the tokens of one of them
/// cannot be counted.
pub open spec fn all_measured(found: Seq<CandidateView>, query: Seq<char>) -> Option<
    Seq<FunctionView>,
>
    decreases found.len(),
{
    if found.len() == 0 {
        Some(Seq::empty())
    } else {
        match (all_measured(found.drop_last(), query), measured(found.last(), query)) {
            (Some(fs), Some(f)) => Some(fs.push(f)),
            _ => None,
        }
    }
}

/// What comes of pruning code: that its tokens cannot be counted, or the code
/// that is left, if any of it goes.
pub open spec fn code_pruned(code: Seq<char>, lang: Lang, query: Seq<char>) -> Option<
    Option<Seq<char>>,
> {
    match parsed(lang, code) {
        Some(items) => match all_measured(candidates(code, items), query) {
            Some(functions) => Some(pruned(code, functions, lang)),
            None => None,
        },
        None => Some(None),
    }
}

/// What is left of a code block: one that is too short, in no language that is
/// known, or without anything to prune stays.
pub open spec fn block_pruned(groups: Seq<Option<Seq<char>>>, query: Seq<char>, min_lines: nat) -> Option<
    Seq<char>,
> {
    let whole = groups[0]->0;
    if groups.len() > 2 && groups[1] is Some && groups[2] is Some {
        let tag = groups[1]->0;
        let code = groups[2]->0;
        if text::lines(code).len() < min_lines {
            Some(whole)
        } else {
            match lang_of(text::lowercase(tag)) {
                Some(lang) => match code_pruned(code, lang, query) {
                    Some(Some(t)) => Some("```"@ + tag + "\n"@ + t + "```"@),
                    Some(None) => Some(whole),
                    None => None,
                },
                None => Some(whole),
            }
        }
    } else {
        Some(whole)
    }
}

/// What is left of code blocks.
pub open spec fn blocks_pruned(
    blocks: Seq<Seq<Option<Seq<char>>>>,
    query: Seq<char>,
    min_lines: nat,
) -> Option<Seq<Seq<char>>>
    decreases blocks.len(),
{
    if blocks.len() == 0 {
        Some(Seq::empty())
    } else {
        match (
            blocks_pruned(blocks.drop_last(), query, min_lines),
            block_pruned(blocks.last(), query, min_lines),
        ) {
            (Some(parts), Some(part)) => Some(parts.push(part)),
            _ => None,
        }
    }
}

/// The stage that prunes the code blocks of a text.
pub open spec fn prune_stage(content: Seq<char>, query: Seq<char>, min_lines: nat) -> Option<
    regex_compress::StageView,
> {
    match blocks_pruned(
        patterns::captures(FENCED_BLOCK@, content),
        text::lowercase(query),
        min_lines,
    ) {
        Some(parts) => regex_compress::stage(
            content,
            patterns::woven(patterns::gaps(FENCED_BLOCK@, content), parts),
            "C_ast"@,
            "AST-aware function body pruning"@,
        ),
        None => None,
    }
}

/// Holds functions against a query in lower case, and counts their tokens.
fn measure_functions(found: &Vec<Candidate>, query: &[char], tokenizer: &Tokenizer) -> (r: Option<
    Vec<FunctionInfo>,
>)
    ensures
        match all_measured(candidate_views(found@), query@) {
            Some(fs) => r matches Some(out) && function_views(out@) == fs,
            None => r is None,
        },
        r matches Some(out) ==> out@.len() == found@.len() && forall|i: int|
            0 <= i < out@.len() ==> (#[trigger] out@[i]).start == found@[i].start && out@[i].end
                == found@[i].end,
{
    let ghost views = candidate_views(found@);
    let mut out: Vec<FunctionInfo> = Vec::new();
    let mut i: usize = 0;
    assert(views.take(0) =~= Seq::empty());
    assert(function_views(out@) =~= Seq::empty());
    while i < found.len()
        invariant
            i <= found@.len(),
            views == candidate_views(found@),
            out@.len() == i,
            all_measured(views.take(i as int), query@) == Some(function_views(out@)),
            forall|k: int|
                0 <= k < i ==> (#[trigger] out@[k]).start == found@[k].start && out@[k].end
                    == found@[k].end,
        decreases found@.len() - i,
    {
        let c = &found[i];
        proof {
            assert(views.take(i + 1).drop_last() =~= views.take(i as int));
            assert(views.take(i + 1).last() == c@);
        }
        match tokenizer.count_tokens(c.body.as_str()) {
            Some(n) => {
                let name = text::chars_of(text::lower(c.name.as_str()).as_str());
                let f = FunctionInfo {
                    start: c.start,
                    end: c.end,
                    signature: text::owned(c.signature.as_str()),
                    body_token_count: n,
                    is_referenced: text::holds_text(query, name.as_slice()),
                };
                let ghost before = out@;
                out.push(f);
                assert(function_views(out@) =~= function_views(before).push(f@));
            },
            None => {
                proof {
                    lemma_measured_none(views, query@, i + 1);
                }
                return None;
            },
        }
        i += 1;
    }
    assert(views.take(views.len() as int) =~= views);
    Some(out)
}

proof fn lemma_measured_none(found: Seq<CandidateView>, query: Seq<char>, n: int)
    requires
        0 <= n <= found.len(),
        all_measured(found.take(n), query) is None,
    ensures
        all_measured(found, query) is None,
    decreases found.len() - n,
{
    if n < found.len() {
        assert(found.take(n + 1).drop_last() =~= found.take(n));
        lemma_measured_none(found, query, n + 1);
    } else {
        assert(found.take(n) =~= found);
    }
}

proof fn lemma_candidates_within(code: Seq<char>, items: Seq<ItemView>)
    ensures
        forall|i: int|
            0 <= i < candidates(code, items).len() ==> 0 <= (#[trigger] candidates(
                code,
                items,
            )[i]).start <= candidates(code, items)[i].end <= code.len(),
    decreases items.len(),
{
    if items.len() > 0 {
        lemma_candidates_within(code, items.drop_last());
        let part = items.last().part;
        lemma_char_from_bound(code, part.start, 0);
        lemma_char_from_bound(code, part.end, 0);
        let less = candidates(code, items.drop_last());
        let all = candidates(code, items);
        assert forall|i: int| 0 <= i < all.len() implies 0 <= (#[trigger] all[i]).start
            <= all[i].end <= code.len() by {
            if i < less.len() {
                assert(all[i] == less[i]);
            }
        }
    }
}

/// What came of pruning code.
enum Outcome {
    Pruned(Vec<char>),
    Left,
    Uncounted,
}

/// Parses code and prunes the functions that a query in lower case does not
/// mention.
fn prune_code(code: &str, lang: Lang, query: &[char], tokenizer: &Tokenizer) -> (r: Outcome)
    ensures
        code_pruned(code@, lang, query@) == match r {
            Outcome::Pruned(t) => Some(Some(t@)),
            Outcome::Left => Some(None),
            Outcome::Uncounted => None,
        },
{
    match parse_code(lang, code) {
        Some(items) => {
            let chars = text::chars_of(code);
            let found = collect_functions(chars.as_slice(), &items);
            proof {
                lemma_candidates_within(code@, item_views(items@));
            }
            match measure_functions(&found, query, tokenizer) {
                Some(functions) => {
                    proof {
                        let views = function_views(functions@);
                        assert forall|i: int| 0 <= i < views.len() implies 0 <= (
                        #[trigger] views[i]).start <= views[i].end <= code@.len() by {
                            let c = candidate_views(found@)[i];
                            assert(c == found@[i]@);
                            assert(views[i] == functions@[i]@);
                            assert(candidates(code@, item_views(items@))[i] == c);
                        }
                    }
                    match prune_functions(chars.as_slice(), &functions, lang) {
                        Some(t) => Outcome::Pruned(t),
                        None => Outcome::Left,
                    }
                },
                None => Outcome::Uncounted,
            }
        },
        None => Outcome::Left,
    }
}

/// What is left of a code block.
fn prune_block(
    groups: &Vec<Option<String>>,
    query: &[char],
    tokenizer: &Tokenizer,
    min_lines: usize,
) -> (r: Option<String>)
    requires
        groups@.len() > 0,
        groups@[0] is Some,
    ensures
        match block_pruned(patterns::group_views(groups@), query@, min_lines as nat) {
            Some(t) => r matches Some(out) && out@ == t,
            None => r is None,
        },
{
    let whole = regex_compress::whole_text(groups);
    if groups.len() > 2 {
        match (&groups[1], &groups[2]) {
            (Some(tag), Some(code)) => {
                let chars = text::chars_of(code.as_str());
                let lines = text::split_lines(chars.as_slice());
                assert(text::views(lines@).len() == lines@.len());
                if lines.len() < min_lines {
                    return Some(whole);
                }
                match detect_language(tag.as_str()) {
                    Some(lang) => match prune_code(code.as_str(), lang, query, tokenizer) {
                        Outcome::Pruned(t) => {
                            let mut out = text::chars_of("```");
                            text::append_str(&mut out, tag.as_str());
                            text::append_str(&mut out, "\n");
                            text::append_chars(&mut out, t.as_slice());
                            text::append_str(&mut out, "```");
                            Some(text::text_of(out.as_slice()))
                        },
                        Outcome::Left => Some(whole),
                        Outcome::Uncounted => None,
                    },
                    None => Some(whole),
                }
            },
            _ => Some(whole),
        }
    } else {
        Some(whole)
    }
}

proof fn lemma_blocks_none(
    blocks: Seq<Seq<Option<Seq<char>>>>,
    query: Seq<char>,
    min_lines: nat,
    n: int,
)
    requires
        0 <= n <= blocks.len(),
        blocks_pruned(blocks.take(n), query, min_lines) is None,
    ensures
        blocks_pruned(blocks, query, min_lines) is None,
    decreases blocks.len() - n,
{
    if n < blocks.len() {
        assert(blocks.take(n + 1).drop_last() =~= blocks.take(n));
        lemma_blocks_none(blocks, query, min_lines, n + 1);
    } else {
        assert(blocks.take(n) =~= blocks);
    }
}

/// The code blocks of a text, with what stands around them, make the text.
pub open spec fn made_of_code(content: Seq<char>) -> bool {
    let between = patterns::gaps(FENCED_BLOCK@, content);
    &&& between.len() == patterns::captures(FENCED_BLOCK@, content).len() + 1
    &&& patterns::woven(between, patterns::matches_of(FENCED_BLOCK@, content)) == content
}

/// Prunes code blocks of at least `min_lines` lines in a language that is
/// known: the bodies of the functions that `user_query` does not mention.
/// Returns the text that is left, with an event if there are fewer tokens in
/// it; `None` where the tokens of one of the texts cannot be counted.
pub fn prune(
    content: &str,
    user_query: &str,
    pattern: &CodeBlocks,
    tokenizer: &Tokenizer,
    min_lines: usize,
) -> (r: Option<(String, Vec<CompressionEvent>)>)
    ensures
        match prune_stage(content@, user_query@, min_lines as nat) {
            Some(s) => r matches Some(out) && out.0@ == s.text && metrics::event_views(out.1@)
                == match s.event {
                Some(e) => seq![e],
                None => Seq::empty(),
            },
            None => r is None,
        },
        made_of_code(content@),
{
    proof {
        use_type_invariant(pattern);
    }
    let query = text::chars_of(text::lower(user_query).as_str());
    let found = patterns::find_captures(&pattern.fenced_block, content);
    let between = patterns::split(&pattern.fenced_block, content);
    let ghost blocks = patterns::captures(FENCED_BLOCK@, content@);
    assert(patterns::capture_views(found@).len() == found@.len());
    assert(patterns::string_views(between@).len() == between@.len());
    assert(made_of_code(content@));
    let mut parts: Vec<String> = Vec::new();
    let mut i: usize = 0;
    assert(blocks.take(0) =~= Seq::empty());
    assert(patterns::string_views(parts@) =~= Seq::empty());
    while i < found.len()
        invariant
            i <= found@.len(),
            found@.len() == blocks.len(),
            blocks == patterns::capture_views(found@),
            blocks == patterns::captures(FENCED_BLOCK@, content@),
            made_of_code(content@),
            query@ == text::lowercase(user_query@),
            forall|k: int|
                0 <= k < found@.len() ==> (#[trigger] found@[k])@.len() > 0 && found@[k]@[0]
                    is Some,
            parts@.len() == i,
            blocks_pruned(blocks.take(i as int), query@, min_lines as nat) == Some(
                patterns::string_views(parts@),
            ),
        decreases found@.len() - i,
    {
        proof {
            assert(blocks.take(i + 1).drop_last() =~= blocks.take(i as int));
            assert(blocks.take(i + 1).last() == patterns::group_views(found@[i as int]@));
        }
        match prune_block(&found[i], query.as_slice(), tokenizer, min_lines) {
            Some(part) => {
                let ghost before = parts@;
                parts.push(part);
                assert(patterns::string_views(parts@) =~= patterns::string_views(before).push(
                    part@,
                ));
            },
            None => {
                proof {
                    lemma_blocks_none(blocks, query@, min_lines as nat, i + 1);
                }
                return None;
            },
        }
        i += 1;
    }
    assert(blocks.take(blocks.len() as int) =~= blocks);
    let result = regex_compress::weave(&between, &parts);
    let staged = regex_compress::measure(
        content,
        result,
        "C_ast",
        "AST-aware function body pruning",
        tokenizer,
    )?;
    let mut events: Vec<CompressionEvent> = Vec::new();
    assert(metrics::event_views(events@) =~= Seq::empty());
    let left = regex_compress::accept(staged, &mut events);
    proof {
        match staged@.event {
            Some(e) => {
                assert(Seq::<EventView>::empty().push(e) =~= seq![e]);
            },
            None => {},
        }
    }
    Some((left, events))
}

// ---------------------------------------------------------------------------
// Laws
// ---------------------------------------------------------------------------
/// A code block stays that is too short, in no language that is known, or
/// without anything to prune.
pub open spec fn block_stays(
    groups: Seq<Option<Seq<char>>>,
    query: Seq<char>,
    min_lines: nat,
) -> bool {
    block_pruned(groups, query, min_lines) == Some(groups[0]->0)
}

proof fn lemma_blocks_stay(
    blocks: Seq<Seq<Option<Seq<char>>>>,
    query: Seq<char>,
    min_lines: nat,
)
    requires
        forall|i: int| 0 <= i < blocks.len() ==> block_stays(#[trigger] blocks[i], query, min_lines),
    ensures
        blocks_pruned(blocks, query, min_lines) == Some(
            blocks.map_values(|groups: Seq<Option<Seq<char>>>| groups[0]->0),
        ),
    decreases blocks.len(),
{
    let whole = blocks.map_values(|groups: Seq<Option<Seq<char>>>| groups[0]->0);
    if blocks.len() > 0 {
        let less = blocks.drop_last();
        assert forall|i: int| 0 <= i < less.len() implies block_stays(
            #[trigger] less[i],
            query,
            min_lines,
        ) by {
            assert(less[i] == blocks[i]);
        }
        lemma_blocks_stay(less, query, min_lines);
        assert(block_stays(blocks.last(), query, min_lines));
        assert(whole =~= less.map_values(
            |groups: Seq<Option<Seq<char>>>| groups[0]->0,
        ).push(blocks.last()[0]->0));
    } else {
        assert(whole =~= Seq::empty());
    }
}

/// A text all of whose code blocks stay comes out as it went in.
pub proof fn texts_without_prunable_blocks_stay(
    content: Seq<char>,
    query: Seq<char>,
    min_lines: nat,
)
    ensures
        made_of_code(content) && (forall|i: int|
            0 <= i < patterns::captures(FENCED_BLOCK@, content).len() ==> block_stays(
                #[trigger] patterns::captures(FENCED_BLOCK@, content)[i],
                text::lowercase(query),
                min_lines,
            )) ==> prune_stage(content, query, min_lines) == regex_compress::unchanged(content),
{
    let blocks = patterns::captures(FENCED_BLOCK@, content);
    if made_of_code(content) && forall|i: int|
        0 <= i < blocks.len() ==> block_stays(
            #[trigger] blocks[i],
            text::lowercase(query),
            min_lines,
        ) {
        lemma_blocks_stay(blocks, text::lowercase(query), min_lines);
    }
}

/// A function that the query mentions, in upper or lower case, is not pruned.
pub proof fn mentioned_functions_stay(found: Seq<CandidateView>, query: Seq<char>, i: int)
    requires
        0 <= i < found.len(),
    ensures
        text::contains_text(query, text::lowercase(found[i].name)) ==> (all_measured(found, query)
            matches Some(fs) ==> fs.len() == found.len() && !prunable(fs, i)),
{
    lemma_measured_each(found, query, i);
}

/// Whether an ASCII name is mentioned does not depend on its case.
pub proof fn names_are_mentioned_in_any_case(query: Seq<char>, name: Seq<char>)
    requires
        text::is_ascii(name),
    ensures
        text::contains_text(query, text::lowercase(text::ascii_uppercase(name)))
            == text::contains_text(query, text::lowercase(name)),
        text::is_ascii(query) ==> text::lowercase(text::ascii_uppercase(query))
            == text::lowercase(query),
{
    text::case_is_lost_in_lower_case(name);
    if text::is_ascii(query) {
        text::case_is_lost_in_lower_case(query);
    }
}

proof fn lemma_measured_each(found: Seq<CandidateView>, query: Seq<char>, i: int)
    requires
        0 <= i < found.len(),
    ensures
        all_measured(found, query) matches Some(fs) ==> fs.len() == found.len() && measured(
            found[i],
            query,
        ) == Some(fs[i]),
    decreases found.len(),
{
    reveal_with_fuel(all_measured, 2);
    if found.len() > 1 {
        if i < found.len() - 1 {
            assert(found.drop_last()[i] == found[i]);
            lemma_measured_each(found.drop_last(), query, i);
        } else {
            lemma_measured_each(found.drop_last(), query, 0);
        }
    }
}

/// What has been pruned so far lies before the place `at`, and code up to it
/// that lies in no pruned function stands in the output.
spec fn kept_so_far(
    code: Seq<char>,
    functions: Seq<FunctionView>,
    lang: Lang,
    n: int,
    a: int,
    b: int,
) -> bool {
    let s = spliced_to(code, functions, lang, n);
    b <= s.at ==> text::contains_text(s.out, code.subrange(a, b))
}

proof fn lemma_contains_more(before: Seq<char>, s: Seq<char>, after: Seq<char>, p: Seq<char>)
    requires
        text::contains_text(s, p),
    ensures
        text::contains_text(before + s + after, p),
{
    let at = choose|at: int| #[trigger] text::has_at(s, p, at);
    let whole = before + s + after;
    assert(whole.subrange(before.len() + at, before.len() + at + p.len()) =~= p) by {
        assert forall|k: int| 0 <= k < p.len() implies whole[before.len() + at + k] == p[k] by {
            assert(s.subrange(at, at + p.len())[k] == s[at + k]);
        }
    }
    assert(text::has_at(whole, p, before.len() + at));
}

proof fn lemma_part_contained(s: Seq<char>, from: int, to: int, a: int, b: int)
    requires
        0 <= from <= a <= b <= to <= s.len(),
    ensures
        text::contains_text(s.subrange(from, to), s.subrange(a, b)),
{
    let whole = s.subrange(from, to);
    let p = s.subrange(a, b);
    assert(whole.subrange(a - from, a - from + p.len()) =~= p);
    assert(text::has_at(whole, p, a - from));
}

proof fn lemma_kept(
    code: Seq<char>,
    functions: Seq<FunctionView>,
    lang: Lang,
    n: int,
    a: int,
    b: int,
)
    requires
        within(code, functions),
        0 <= a <= b <= code.len(),
        a < b,
        0 <= n <= functions.len(),
        forall|i: int|
            0 <= i < functions.len() && prunable(functions, i) ==> (#[trigger] functions[i]).end
                <= a || b <= functions[i].start,
    ensures
        kept_so_far(code, functions, lang, n, a, b),
        spliced_to(code, functions, lang, n).at <= a || b <= spliced_to(
            code,
            functions,
            lang,
            n,
        ).at,
        0 <= spliced_to(code, functions, lang, n).at <= code.len(),
    decreases n,
{
    if n > 0 {
        lemma_kept(code, functions, lang, n - 1, a, b);
        let before = spliced_to(code, functions, lang, n - 1);
        let f = functions[n - 1];
        if prunable(functions, n - 1) && before.at <= f.start {
            let part = code.subrange(before.at, f.start);
            let tail = stub(f.signature, f.body_tokens, lang);
            let out = spliced_to(code, functions, lang, n).out;
            if b <= before.at {
                lemma_contains_more(Seq::empty(), before.out, part + tail, code.subrange(a, b));
                assert(Seq::empty() + before.out + (part + tail) =~= out);
            } else if b <= f.start {
                lemma_part_contained(code, before.at, f.start, a, b);
                lemma_contains_more(before.out, part, tail, code.subrange(a, b));
            }
        }
    }
}

/// Code that lies in no pruned function is kept as it is.
pub proof fn code_outside_pruned_functions_stays(
    code: Seq<char>,
    functions: Seq<FunctionView>,
    lang: Lang,
    a: int,
    b: int,
)
    requires
        within(code, functions),
        0 <= a <= b <= code.len(),
        forall|i: int|
            0 <= i < functions.len() && prunable(functions, i) ==> (#[trigger] functions[i]).end
                <= a || b <= functions[i].start,
    ensures
        text::contains_text(spliced(code, functions, lang), code.subrange(a, b)),
{
    let n = functions.len() as int;
    let done = spliced_to(code, functions, lang, n);
    let whole = spliced(code, functions, lang);
    let p = code.subrange(a, b);
    if a == b {
        assert(whole.subrange(0, 0) =~= p);
        assert(text::has_at(whole, p, 0));
    } else {
        lemma_kept(code, functions, lang, n, a, b);
        if b <= done.at {
            lemma_contains_more(Seq::empty(), done.out, code.skip(done.at), p);
            assert(Seq::empty() + done.out + code.skip(done.at) =~= whole);
        } else {
            lemma_part_contained(code, done.at, code.len() as int, a, b);
            assert(code.subrange(done.at, code.len() as int) =~= code.skip(done.at));
            lemma_contains_more(done.out, code.skip(done.at), Seq::empty(), p);
            assert(done.out + code.skip(done.at) + Seq::<char>::empty() =~= whole);
        }
    }
}

} // verus!
