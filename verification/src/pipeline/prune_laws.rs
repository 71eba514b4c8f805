//! What pruning leaves of code, and what it takes away.
use vstd::prelude::*;
use vstd::string::*;
use vstd::utf8::*;

use crate::patterns;
use crate::pipeline::ast_prune;
use crate::pipeline::ast_prune::{CandidateView, FunctionView, ItemView, Lang, PartView};
use crate::text;
use crate::text_laws;
use crate::tokenizer;

verus! {

// ---------------------------------------------------------------------------
// Languages
// ---------------------------------------------------------------------------
/// The tags by which a language is known, and no other tag is.
pub proof fn each_language_has_its_tags(tag: Seq<char>)
    ensures
        ast_prune::lang_of(tag) == Some(Lang::Python) <==> seq!["python"@, "py"@].contains(tag),
        ast_prune::lang_of(tag) == Some(Lang::JavaScript) <==> seq![
            "javascript"@,
            "js"@,
            "typescript"@,
            "ts"@,
            "tsx"@,
            "jsx"@,
        ].contains(tag),
        ast_prune::lang_of(tag) == Some(Lang::Rust) <==> seq!["rust"@, "rs"@].contains(tag),
        ast_prune::lang_of(tag) == Some(Lang::Go) <==> seq!["go"@, "golang"@].contains(tag),
{
    reveal_strlit("python");
    reveal_strlit("py");
    reveal_strlit("javascript");
    reveal_strlit("js");
    reveal_strlit("typescript");
    reveal_strlit("ts");
    reveal_strlit("tsx");
    reveal_strlit("jsx");
    reveal_strlit("rust");
    reveal_strlit("rs");
    reveal_strlit("go");
    reveal_strlit("golang");
    let python = seq!["python"@, "py"@];
    let script = seq!["javascript"@, "js"@, "typescript"@, "ts"@, "tsx"@, "jsx"@];
    let rust = seq!["rust"@, "rs"@];
    let go = seq!["go"@, "golang"@];
    assert(python[0] == "python"@ && python[1] == "py"@);
    assert(script[0] == "javascript"@ && script[1] == "js"@ && script[2] == "typescript"@
        && script[3] == "ts"@ && script[4] == "tsx"@ && script[5] == "jsx"@);
    assert(rust[0] == "rust"@ && rust[1] == "rs"@);
    assert(go[0] == "go"@ && go[1] == "golang"@);
    assert("python"@[0] == 'p' && "py"@[0] == 'p' && "javascript"@[0] == 'j' && "js"@[0] == 'j'
        && "typescript"@[0] == 't' && "ts"@[0] == 't' && "tsx"@[0] == 't' && "jsx"@[0] == 'j'
        && "rust"@[0] == 'r' && "rs"@[0] == 'r' && "go"@[0] == 'g' && "golang"@[0] == 'g');
}

// ---------------------------------------------------------------------------
// Functions
// ---------------------------------------------------------------------------
proof fn lemma_char_from(code: Seq<char>, byte: int, from: int)
    requires
        0 <= from,
    ensures
        ast_prune::char_from(code, byte, from) matches Some(k) ==> from <= k <= code.len()
            && encode_utf8(code.take(k)).len() == byte,
        ast_prune::char_from(code, byte, from) is None ==> forall|k: int|
            from <= k <= code.len() ==> encode_utf8(#[trigger] code.take(k)).len() != byte,
    decreases code.len() - from + 1,
{
    if from <= code.len() && encode_utf8(code.take(from)).len() != byte {
        lemma_char_from(code, byte, from + 1);
        if ast_prune::char_from(code, byte, from) is None {
            assert forall|k: int| from <= k <= code.len() implies encode_utf8(
                #[trigger] code.take(k),
            ).len() != byte by {
                if k > from {
                    assert(from + 1 <= k);
                }
            }
        }
    }
}

/// A place in some code, given in bytes, is the character before which there
/// are that many bytes. There is none if and only if the bytes end inside a
/// character or are more than there are.
pub proof fn bytes_lead_to_characters(code: Seq<char>, byte: int)
    ensures
        match ast_prune::char_at(code, byte) {
            Some(k) => 0 <= k <= code.len() && encode_utf8(code.take(k)).len() == byte,
            None => forall|k: int|
                0 <= k <= code.len() ==> encode_utf8(#[trigger] code.take(k)).len() != byte,
        },
{
    lemma_char_from(code, byte, 0);
}

/// The part at `i` is the first one of one of some kinds.
pub open spec fn first_of(parts: Seq<PartView>, kinds: Seq<Seq<char>>, i: int) -> bool {
    &&& 0 <= i < parts.len()
    &&& kinds.contains(parts[i].kind)
    &&& forall|k: int| 0 <= k < i ==> !kinds.contains((#[trigger] parts[k]).kind)
}

/// The kinds of node that can be pruned.
pub open spec fn prunable_kinds() -> Seq<Seq<char>> {
    seq![
        "function_definition"@,
        "function_declaration"@,
        "method_definition"@,
        "class_definition"@,
        "class_declaration"@,
        "function_item"@,
        "impl_item"@,
    ]
}

/// The kinds of node that name something.
pub open spec fn naming_kinds() -> Seq<Seq<char>> {
    seq!["name"@, "identifier"@, "type_identifier"@]
}

/// The kinds of node that are a body.
pub open spec fn bodily_kinds() -> Seq<Seq<char>> {
    seq!["block"@, "statement_block"@, "class_body"@, "declaration_list"@, "function_body"@]
}

proof fn lemma_kinds(kind: Seq<char>)
    ensures
        ast_prune::is_function_kind(kind) == prunable_kinds().contains(kind),
        ast_prune::is_name_kind(kind) == naming_kinds().contains(kind),
        ast_prune::is_body_kind(kind) == bodily_kinds().contains(kind),
{
    let f = prunable_kinds();
    assert(f[0] == "function_definition"@ && f[1] == "function_declaration"@ && f[2]
        == "method_definition"@ && f[3] == "class_definition"@ && f[4] == "class_declaration"@
        && f[5] == "function_item"@ && f[6] == "impl_item"@);
    let n = naming_kinds();
    assert(n[0] == "name"@ && n[1] == "identifier"@ && n[2] == "type_identifier"@);
    let b = bodily_kinds();
    assert(b[0] == "block"@ && b[1] == "statement_block"@ && b[2] == "class_body"@ && b[3]
        == "declaration_list"@ && b[4] == "function_body"@);
}

proof fn lemma_first_name(parts: Seq<PartView>, i: int)
    requires
        first_of(parts, naming_kinds(), i),
    ensures
        ast_prune::first_name(parts) == Some(parts[i]),
    decreases parts.len(),
{
    lemma_kinds(parts[0].kind);
    if i > 0 {
        assert(!naming_kinds().contains(parts[0].kind));
        let rest = parts.skip(1);
        assert forall|k: int| 0 <= k < i - 1 implies !naming_kinds().contains(
            (#[trigger] rest[k]).kind,
        ) by {
            assert(rest[k] == parts[k + 1]);
        }
        lemma_first_name(rest, i - 1);
    }
}

proof fn lemma_first_body(parts: Seq<PartView>, i: int)
    requires
        first_of(parts, bodily_kinds(), i),
    ensures
        ast_prune::first_body(parts) == Some(parts[i]),
    decreases parts.len(),
{
    lemma_kinds(parts[0].kind);
    if i > 0 {
        assert(!bodily_kinds().contains(parts[0].kind));
        let rest = parts.skip(1);
        assert forall|k: int| 0 <= k < i - 1 implies !bodily_kinds().contains(
            (#[trigger] rest[k]).kind,
        ) by {
            assert(rest[k] == parts[k + 1]);
        }
        lemma_first_body(rest, i - 1);
    }
}

proof fn lemma_no_name(parts: Seq<PartView>)
    requires
        forall|k: int| 0 <= k < parts.len() ==> !naming_kinds().contains((#[trigger] parts[k]).kind),
    ensures
        ast_prune::first_name(parts) is None,
    decreases parts.len(),
{
    if parts.len() > 0 {
        lemma_kinds(parts[0].kind);
        let rest = parts.skip(1);
        assert forall|k: int| 0 <= k < rest.len() implies !naming_kinds().contains(
            (#[trigger] rest[k]).kind,
        ) by {
            assert(rest[k] == parts[k + 1]);
        }
        lemma_no_name(rest);
    }
}

proof fn lemma_no_body(parts: Seq<PartView>)
    requires
        forall|k: int| 0 <= k < parts.len() ==> !bodily_kinds().contains((#[trigger] parts[k]).kind),
    ensures
        ast_prune::first_body(parts) is None,
    decreases parts.len(),
{
    if parts.len() > 0 {
        lemma_kinds(parts[0].kind);
        let rest = parts.skip(1);
        assert forall|k: int| 0 <= k < rest.len() implies !bodily_kinds().contains(
            (#[trigger] rest[k]).kind,
        ) by {
            assert(rest[k] == parts[k + 1]);
        }
        lemma_no_body(rest);
    }
}

/// The bytes from and up to which a node reaches are those before the
/// characters `from` and `to` of the code.
pub open spec fn reaches(code: Seq<char>, part: PartView, from: int, to: int) -> bool {
    &&& ast_prune::char_at(code, part.start) == Some(from)
    &&& ast_prune::char_at(code, part.end) == Some(to)
    &&& from <= to
}

/// A function, method, class or impl block with a name and a body of three
/// lines or more can be pruned, and nothing else can. It has the name that its
/// first naming node has in the code. Its declaration is the code from its start
/// up to its body, white space at the end apart; its body is that of its first
/// body node.
pub proof fn functions_with_long_bodies_can_be_pruned(
    code: Seq<char>,
    item: ItemView,
    n: int,
    b: int,
    from: int,
    to: int,
    name_from: int,
    name_to: int,
    body_from: int,
    body_to: int,
)
    requires
        first_of(item.children, naming_kinds(), n),
        first_of(item.children, bodily_kinds(), b),
        reaches(code, item.part, from, to),
        reaches(code, item.children[n], name_from, name_to),
        reaches(code, item.children[b], body_from, body_to),
        from <= body_from,
    ensures
        ast_prune::candidate(code, item) is Some <==> {
            &&& prunable_kinds().contains(item.part.kind)
            &&& name_from < name_to
            &&& text::lines(code.subrange(body_from, body_to)).len() >= 3
        },
        ast_prune::candidate(code, item) matches Some(c) ==> {
            &&& c.start == from && c.end == to
            &&& c.name == code.subrange(name_from, name_to)
            &&& c.body == code.subrange(body_from, body_to)
            &&& from + c.signature.len() <= body_from
            &&& c.signature == code.subrange(from, from + c.signature.len())
            &&& forall|k: int|
                from + c.signature.len() <= k < body_from ==> text::is_space(#[trigger] code[k])
            &&& c.signature.len() > 0 ==> !text::is_space(c.signature.last())
        },
{
    lemma_first_name(item.children, n);
    lemma_first_body(item.children, b);
    lemma_kinds(item.part.kind);
    bytes_lead_to_characters(code, item.part.start);
    bytes_lead_to_characters(code, item.part.end);
    bytes_lead_to_characters(code, item.children[n].start);
    bytes_lead_to_characters(code, item.children[n].end);
    bytes_lead_to_characters(code, item.children[b].start);
    bytes_lead_to_characters(code, item.children[b].end);
    let before = code.subrange(from, body_from);
    text_laws::trimming_the_end_takes_white_space_only(before);
    match ast_prune::candidate(code, item) {
        Some(c) => {
            assert(c.signature =~= code.subrange(from, from + c.signature.len()));
            assert forall|k: int| from + c.signature.len() <= k < body_from implies text::is_space(
                #[trigger] code[k],
            ) by {
                assert(before[k - from] == code[k]);
            }
        },
        None => {},
    }
}

/// A node without a name, or without a body, is left as it is.
pub proof fn nodes_without_name_or_body_stay(code: Seq<char>, item: ItemView)
    requires
        (forall|k: int|
            0 <= k < item.children.len() ==> !naming_kinds().contains(
                (#[trigger] item.children[k]).kind,
            )) || (forall|k: int|
            0 <= k < item.children.len() ==> !bodily_kinds().contains(
                (#[trigger] item.children[k]).kind,
            )),
    ensures
        ast_prune::candidate(code, item) is None,
{
    if forall|k: int|
        0 <= k < item.children.len() ==> !naming_kinds().contains(
            (#[trigger] item.children[k]).kind,
        ) {
        lemma_no_name(item.children);
    } else {
        lemma_no_body(item.children);
    }
}

/// Nodes are looked at one after the other: each adds the function that it is,
/// if it is one, behind those found before.
pub proof fn every_node_is_looked_at(code: Seq<char>, items: Seq<ItemView>, item: ItemView)
    ensures
        ast_prune::candidates(code, Seq::empty()) == Seq::<CandidateView>::empty(),
        ast_prune::candidates(code, items.push(item)) == match ast_prune::candidate(code, item) {
            Some(c) => ast_prune::candidates(code, items).push(c),
            None => ast_prune::candidates(code, items),
        },
{
    assert(items.push(item).drop_last() =~= items);
}

/// A function is mentioned if and only if the query holds its name in lower
/// case. Its place, its declaration and the tokens of its body are kept.
pub proof fn functions_are_held_against_the_query(
    found: Seq<CandidateView>,
    query: Seq<char>,
    i: int,
)
    requires
        0 <= i < found.len(),
    ensures
        ast_prune::all_measured(found, query) matches Some(fs) ==> {
            &&& fs.len() == found.len()
            &&& fs[i].start == found[i].start && fs[i].end == found[i].end
            &&& fs[i].signature == found[i].signature
            &&& tokenizer::tokens(found[i].body) == Some(fs[i].body_tokens)
            &&& fs[i].referenced <==> exists|a: Seq<char>, b: Seq<char>|
                query == #[trigger] (a + text::lowercase(found[i].name) + b)
        },
        ast_prune::all_measured(Seq::empty(), query) == Some(Seq::<FunctionView>::empty()),
    decreases found.len(),
{
    text_laws::held_texts_are_parts(query, text::lowercase(found[i].name));
    let less = found.drop_last();
    match ast_prune::all_measured(found, query) {
        Some(fs) => {
            if less.len() > 0 {
                let j = if i < less.len() {
                    i
                } else {
                    0
                };
                functions_are_held_against_the_query(less, query, j);
                if i < less.len() {
                    assert(less[i] == found[i]);
                }
            } else {
                assert(less =~= Seq::empty());
                assert(ast_prune::all_measured(less, query) == Some(Seq::<FunctionView>::empty()));
            }
        },
        None => {},
    }
}

/// Code of up to 4 GB is parsed, and the nodes of its syntax tree are looked at.
pub proof fn all_but_huge_code_is_parsed(lang: Lang, code: Seq<char>)
    ensures
        encode_utf8(code).len() <= 0xffff_ffff ==> ast_prune::parsed(lang, code)
            == ast_prune::syntax(lang, code),
{
}

// ---------------------------------------------------------------------------
// Stubs
// ---------------------------------------------------------------------------
/// What replaces a pruned function starts with its declaration, in every
/// language, and goes on with a comment in that language which says how many
/// tokens have gone.
pub proof fn stubs_start_with_the_declaration(signature: Seq<char>, n: nat, lang: Lang)
    ensures
        ast_prune::stub(signature, n, lang).len() >= signature.len(),
        ast_prune::stub(signature, n, lang).take(signature.len() as int) == signature,
        ({
            let note = "[Janus: body pruned — "@ + text::decimal(n) + " tokens]"@;
            ast_prune::stub(signature, n, lang).skip(signature.len() as int) == if lang
                == Lang::Python {
                "    # "@ + note
            } else {
                " {\n    // "@ + note + "\n}"@
            }
        }),
{
    reveal_strlit("    # [Janus: body pruned — ");
    reveal_strlit(" {\n    // [Janus: body pruned — ");
    reveal_strlit("[Janus: body pruned — ");
    reveal_strlit(" tokens]");
    reveal_strlit(" tokens]\n}");
    reveal_strlit("    # ");
    reveal_strlit(" {\n    // ");
    reveal_strlit("\n}");
    let all = ast_prune::stub(signature, n, lang);
    let rest = all.skip(signature.len() as int);
    let note = "[Janus: body pruned — "@ + text::decimal(n) + " tokens]"@;
    assert(all.take(signature.len() as int) =~= signature);
    if lang == Lang::Python {
        assert("    # [Janus: body pruned — "@ =~= "    # "@ + "[Janus: body pruned — "@);
        assert(rest =~= "    # "@ + note);
    } else {
        assert(" {\n    // [Janus: body pruned — "@ =~= " {\n    // "@ + "[Janus: body pruned — "@);
        assert(" tokens]\n}"@ =~= " tokens]"@ + "\n}"@);
        assert(rest =~= " {\n    // "@ + note + "\n}"@);
    }
}

// ---------------------------------------------------------------------------
// Code
// ---------------------------------------------------------------------------
/// Functions stand one after the other in the first `n` characters of code, and
/// none of them is empty.
pub open spec fn in_a_row(functions: Seq<FunctionView>, n: int) -> bool {
    &&& forall|i: int|
        0 <= i < functions.len() ==> 0 <= (#[trigger] functions[i]).start < functions[i].end <= n
    &&& forall|i: int, j: int|
        0 <= i < j < functions.len() ==> (#[trigger] functions[i]).end <= (
        #[trigger] functions[j]).start
}

proof fn lemma_in_a_row(functions: Seq<FunctionView>, n: int, i: int)
    requires
        in_a_row(functions, n),
        0 <= i < functions.len(),
    ensures
        ast_prune::prunable(functions, i) == !functions[i].referenced,
{
    assert(!ast_prune::dominated(functions, i)) by {
        assert forall|j: int| 0 <= j < functions.len() && j != i implies !((
        #[trigger] functions[j]).start <= functions[i].start && functions[i].end
            <= functions[j].end) by {
            if j < i {
                assert(functions[j].end <= functions[i].start);
                assert(functions[i].start < functions[i].end);
            } else {
                assert(functions[i].end <= functions[j].start);
                assert(functions[i].start < functions[i].end);
            }
        }
    }
}

/// What is done to the first functions does not depend on the last one, nor on
/// the code behind them.
proof fn lemma_splice_before(
    code: Seq<char>,
    functions: Seq<FunctionView>,
    lang: Lang,
    cut: int,
    n: int,
)
    requires
        functions.len() > 0,
        in_a_row(functions, code.len() as int),
        cut <= code.len(),
        0 <= cut,
        forall|i: int| 0 <= i < functions.len() - 1 ==> (#[trigger] functions[i]).end <= cut,
        0 <= n <= functions.len() - 1,
    ensures
        ast_prune::spliced_to(code, functions, lang, n) == ast_prune::spliced_to(
            code.take(cut),
            functions.drop_last(),
            lang,
            n,
        ),
        0 <= ast_prune::spliced_to(code, functions, lang, n).at <= cut,
        forall|i: int|
            n <= i < functions.len() ==> ast_prune::spliced_to(code, functions, lang, n).at <= (
            #[trigger] functions[i]).start,
    decreases n,
{
    if n > 0 {
        lemma_splice_before(code, functions, lang, cut, n - 1);
        let less = functions.drop_last();
        let f = functions[n - 1];
        let before = ast_prune::spliced_to(code, functions, lang, n - 1);
        assert(less[n - 1] == f);
        assert(in_a_row(less, cut)) by {
            assert forall|i: int| 0 <= i < less.len() implies 0 <= (#[trigger] less[i]).start
                < less[i].end <= cut by {
                assert(less[i] == functions[i]);
            }
            assert forall|i: int, j: int| 0 <= i < j < less.len() implies (
            #[trigger] less[i]).end <= (#[trigger] less[j]).start by {
                assert(less[i] == functions[i] && less[j] == functions[j]);
            }
        }
        lemma_in_a_row(functions, code.len() as int, n - 1);
        lemma_in_a_row(less, cut, n - 1);
        assert(f.end <= cut);
        assert(code.subrange(before.at, f.start) =~= code.take(cut).subrange(before.at, f.start));
        assert forall|i: int| n <= i < functions.len() implies ast_prune::spliced_to(
            code,
            functions,
            lang,
            n,
        ).at <= (#[trigger] functions[i]).start by {
            assert(functions[n - 1].end <= functions[i].start);
        }
    }
}

/// Functions that stand one after the other are pruned one by one. One that the
/// query does not mention is replaced by its stub, in its place; one that it
/// mentions stays as it is. All code around them stays.
pub proof fn functions_are_pruned_one_by_one(
    code: Seq<char>,
    functions: Seq<FunctionView>,
    lang: Lang,
)
    requires
        in_a_row(functions, code.len() as int),
    ensures
        functions.len() == 0 ==> ast_prune::spliced(code, functions, lang) == code,
        functions.len() > 0 ==> ({
            let f = functions.last();
            let before = ast_prune::spliced(code.take(f.start), functions.drop_last(), lang);
            ast_prune::spliced(code, functions, lang) == if f.referenced {
                before + code.skip(f.start)
            } else {
                before + ast_prune::stub(f.signature, f.body_tokens, lang) + code.skip(f.end)
            }
        }),
{
    let n = functions.len() as int;
    if n == 0 {
        assert(Seq::<char>::empty() + code.skip(0) =~= code);
    } else {
        let f = functions.last();
        let less = functions.drop_last();
        let start = code.take(f.start);
        assert(functions[n - 1] == f);
        assert forall|i: int| 0 <= i < n - 1 implies (#[trigger] functions[i]).end <= f.start by {
            assert(functions[i].end <= functions[n - 1].start);
        }
        lemma_splice_before(code, functions, lang, f.start, n - 1);
        lemma_in_a_row(functions, code.len() as int, n - 1);
        let done = ast_prune::spliced_to(code, functions, lang, n - 1);
        assert(start.skip(done.at) =~= code.subrange(done.at, f.start));
        let before = ast_prune::spliced(start, less, lang);
        assert(before == done.out + code.subrange(done.at, f.start));
        if f.referenced {
            assert(ast_prune::spliced(code, functions, lang) =~= before + code.skip(f.start));
        } else {
            assert(ast_prune::spliced(code, functions, lang) =~= before + ast_prune::stub(
                f.signature,
                f.body_tokens,
                lang,
            ) + code.skip(f.end));
        }
    }
}

/// A function that the query does not mention leaves its declaration in the
/// pruned code, with the count of its tokens behind it, whatever is pruned
/// before and behind it.
pub proof fn declarations_stay(
    code: Seq<char>,
    functions: Seq<FunctionView>,
    lang: Lang,
    i: int,
)
    requires
        in_a_row(functions, code.len() as int),
        0 <= i < functions.len(),
        !functions[i].referenced,
    ensures
        text::contains_text(ast_prune::spliced(code, functions, lang), functions[i].signature),
        text::contains_text(
            ast_prune::spliced(code, functions, lang),
            text::decimal(functions[i].body_tokens),
        ),
    decreases functions.len(),
{
    let n = functions.len() as int;
    let f = functions.last();
    let less = functions.drop_last();
    let start = code.take(f.start);
    assert(functions[n - 1] == f);
    functions_are_pruned_one_by_one(code, functions, lang);
    let all = ast_prune::spliced(code, functions, lang);
    let before = ast_prune::spliced(start, less, lang);
    let sig = functions[i].signature;
    let count = text::decimal(functions[i].body_tokens);
    if i < n - 1 {
        assert(in_a_row(less, f.start)) by {
            assert forall|k: int| 0 <= k < less.len() implies 0 <= (#[trigger] less[k]).start
                < less[k].end <= f.start by {
                assert(less[k] == functions[k]);
                assert(functions[k].end <= functions[n - 1].start);
            }
            assert forall|j: int, k: int| 0 <= j < k < less.len() implies (
            #[trigger] less[j]).end <= (#[trigger] less[k]).start by {
                assert(less[j] == functions[j] && less[k] == functions[k]);
            }
        }
        assert(less[i] == functions[i]);
        declarations_stay(start, less, lang, i);
        let tail = all.skip(before.len() as int);
        assert(all =~= Seq::empty() + before + tail);
        lemma_held_in_part(Seq::empty(), before, tail, sig);
        lemma_held_in_part(Seq::empty(), before, tail, count);
    } else {
        let stub = ast_prune::stub(f.signature, f.body_tokens, lang);
        stubs_start_with_the_declaration(f.signature, f.body_tokens, lang);
        let rest = stub.skip(sig.len() as int);
        assert(stub =~= Seq::empty() + sig + rest);
        text_laws::held_texts_are_parts(stub, sig);
        lemma_held_in_part(before, stub, code.skip(f.end), sig);
        if lang == Lang::Python {
            assert(stub =~= (sig + "    # "@ + "[Janus: body pruned — "@) + count + " tokens]"@);
        } else {
            assert(stub =~= (sig + " {\n    // "@ + "[Janus: body pruned — "@) + count + (
            " tokens]"@ + "\n}"@));
        }
        text_laws::held_texts_are_parts(stub, count);
        lemma_held_in_part(before, stub, code.skip(f.end), count);
    }
}

proof fn lemma_held_in_part(a: Seq<char>, s: Seq<char>, b: Seq<char>, p: Seq<char>)
    requires
        text::contains_text(s, p),
    ensures
        text::contains_text(a + s + b, p),
{
    text_laws::held_texts_are_parts(s, p);
    let (x, y) = choose|x: Seq<char>, y: Seq<char>| s == #[trigger] (x + p + y);
    assert(a + s + b =~= (a + x) + p + (y + b));
    text_laws::held_texts_are_parts(a + s + b, p);
}

/// Code is pruned if and only if there is a function in it that the query does
/// not mention.
pub proof fn code_without_unmentioned_functions_stays(
    code: Seq<char>,
    functions: Seq<FunctionView>,
    lang: Lang,
)
    ensures
        match ast_prune::pruned(code, functions, lang) {
            Some(t) => t == ast_prune::spliced(code, functions, lang) && exists|i: int|
                0 <= i < functions.len() && !(#[trigger] functions[i]).referenced,
            None => forall|i: int|
                0 <= i < functions.len() ==> (#[trigger] functions[i]).referenced,
        },
{
}

/// A function within another one, and not the only one in its place, goes or
/// stays with the other: it is not replaced itself.
pub proof fn inner_functions_are_not_replaced(functions: Seq<FunctionView>, i: int, j: int)
    requires
        0 <= i < functions.len(),
        0 <= j < functions.len(),
        i != j,
        functions[j].start <= functions[i].start,
        functions[i].end <= functions[j].end,
    ensures
        !ast_prune::prunable(functions, i),
{
    assert(functions[j].start <= functions[i].start);
}

// ---------------------------------------------------------------------------
// Code blocks
// ---------------------------------------------------------------------------
/// A code block is left whole that has too few lines or is in no language that
/// is known. Of any other, the fence with its tag stays, and the code between is
/// what pruning leaves of it.
pub proof fn fences_stay(
    whole: Seq<char>,
    tag: Seq<char>,
    code: Seq<char>,
    query: Seq<char>,
    min_lines: nat,
)
    ensures
        ({
            let left = ast_prune::block_pruned(
                seq![Some(whole), Some(tag), Some(code)],
                query,
                min_lines,
            );
            let lang = ast_prune::lang_of(text::lowercase(tag));
            &&& text::lines(code).len() < min_lines || lang is None ==> left == Some(whole)
            &&& text::lines(code).len() >= min_lines && lang is Some ==> left
                == match ast_prune::parsed(lang->0, code) {
                Some(items) => match ast_prune::all_measured(
                    ast_prune::candidates(code, items),
                    query,
                ) {
                    Some(functions) => match ast_prune::pruned(code, functions, lang->0) {
                        Some(t) => Some("```"@ + tag + "\n"@ + t + "```"@),
                        None => Some(whole),
                    },
                    None => None,
                },
                None => Some(whole),
            }
        }),
{
}

/// Code blocks are pruned one after the other, each in its place.
pub proof fn blocks_are_pruned_one_by_one(
    blocks: Seq<Seq<Option<Seq<char>>>>,
    block: Seq<Option<Seq<char>>>,
    query: Seq<char>,
    min_lines: nat,
)
    ensures
        ast_prune::blocks_pruned(Seq::empty(), query, min_lines) == Some(Seq::<Seq<char>>::empty()),
        ast_prune::blocks_pruned(blocks.push(block), query, min_lines) == match (
            ast_prune::blocks_pruned(blocks, query, min_lines),
            ast_prune::block_pruned(block, query, min_lines),
        ) {
            (Some(parts), Some(part)) => Some(parts.push(part)),
            _ => None,
        },
{
    assert(blocks.push(block).drop_last() =~= blocks);
}

/// What stands around the fenced code blocks of a text stays, and the query is
/// taken in lower case: it does not matter how it is written.
pub proof fn text_around_fences_stays(content: Seq<char>, query: Seq<char>, min_lines: nat)
    ensures
        ({
            let pattern = r"(?ms)^```(\w+)\n(.*?)^```"@;
            let parts = ast_prune::blocks_pruned(
                patterns::captures(pattern, content),
                text::lowercase(query),
                min_lines,
            );
            ast_prune::prune_stage(content, query, min_lines) matches Some(s) ==> {
                &&& parts is Some
                &&& s.text == patterns::woven(patterns::gaps(pattern, content), parts->0)
                &&& s.event matches Some(e) ==> e.stage == "C_ast"@ && e.after < e.before
                    && tokenizer::tokens(content) == Some(e.before) && tokenizer::tokens(s.text)
                    == Some(e.after)
            }
        }),
        text::is_ascii(query) ==> ast_prune::prune_stage(
            content,
            text::ascii_uppercase(query),
            min_lines,
        ) == ast_prune::prune_stage(content, query, min_lines),
{
    if text::is_ascii(query) {
        text::case_is_lost_in_lower_case(query);
    }
}

} // verus!
