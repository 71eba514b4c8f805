use janus::pipeline::ast_prune::{detect_language, language, prune, CodeBlocks, Lang};
use janus::pipeline::regex_compress::{
    collapse_duplicate_blocks, compress, condense, find_comment_start, find_double_slash_comment,
    keep_jsdoc, note_for, repeats, stage_event, strip_line, LineMarks, Patterns,
};
use janus::tokenizer::Tokenizer;

fn squeezed(content: &str) -> (String, Vec<String>) {
    let (text, events) =
        compress(content, &Patterns::new().unwrap(), &Tokenizer::new()).unwrap();
    for e in &events {
        assert!(e.tokens_before > e.tokens_after);
    }
    (text, events.into_iter().map(|e| e.stage_name).collect())
}

fn stripped(line: &str) -> String {
    let chars: Vec<char> = line.chars().collect();
    strip_line(&chars, false).into_iter().collect()
}

#[test]
fn docstrings_go() {
    let (text, stages) = squeezed("def f():\n    \"\"\"Say what f does.\"\"\"\n    return 1");
    assert_eq!(text, "def f():\n\n    return 1");
    assert_eq!(stages[0], "B1_docstrings");
    let (text, _) = squeezed("/** Doc of g. */\nfunction g() {}");
    assert_eq!(text, "\nfunction g() {}");
    let (text, _) = squeezed("let a = 1;\n/// Doc of b.\nlet b = 2;");
    assert_eq!(text, "let a = 1;\n\nlet b = 2;");
}

#[test]
fn comments_go_and_code_stays() {
    assert_eq!(stripped("x = 1  # one"), "x = 1");
    assert_eq!(stripped("    # only a comment"), "");
    assert_eq!(stripped("  let y = 2; // two"), "  let y = 2;");
    assert_eq!(stripped("// only a comment"), "");
    assert_eq!(stripped("x = '# no comment'"), "x = '# no comment'");
    assert_eq!(stripped("s = \"a \\\" # b\""), "s = \"a \\\" # b\"");
    assert_eq!(stripped("get(http://host/path)"), "get(http://host/path)");
    assert_eq!(stripped("é = 1 # x"), "é = 1");
    assert_eq!(stripped("plain"), "plain");
}

#[test]
fn preserved_comments_stay() {
    let chars: Vec<char> = "x = 1  # type: ignore".chars().collect();
    assert_eq!(strip_line(&chars, true), chars);
    let (text, stages) = squeezed("x = 1  # TODO: later\ny = 2");
    assert_eq!(text, "x = 1  # TODO: later\ny = 2");
    assert!(stages.is_empty());
}

#[test]
fn block_comments_go_but_jsdoc_stays() {
    let gaps = vec!["a ".to_string(), " b ".to_string(), " c".to_string()];
    let comments = vec!["/* x */".to_string(), "/** y */".to_string()];
    assert_eq!(keep_jsdoc(&gaps, &comments), "a  b /** y */ c");
    let (text, stages) = squeezed("int a; /* some words here */ int b;");
    assert_eq!(text, "int a;  int b;");
    assert_eq!(stages, vec!["B2_comments"]);
}

#[test]
fn the_last_line_feed_is_kept_as_it_was() {
    assert_eq!(squeezed("a\nb").0, "a\nb");
    assert_eq!(squeezed("a\nb\n").0, "a\nb\n");
    assert_eq!(squeezed("").0, "");
}

#[test]
fn white_space_is_normalized() {
    let (text, _) = squeezed("a\u{200b}b   \nc\n\n\n\n\nd");
    assert_eq!(text, "ab\nc\n\nd");
}

fn marks(header: bool, frame: bool, node: bool) -> LineMarks {
    LineMarks { header, frame, node }
}

fn lines(n: usize) -> Vec<Vec<char>> {
    (0..n).map(|i| format!("l{}", i).chars().collect()).collect()
}

fn shown(lines: &Vec<Vec<char>>) -> Vec<String> {
    lines.iter().map(|l| l.iter().collect()).collect()
}

#[test]
fn long_traces_are_shortened() {
    let (out, modified) = condense(&lines(12), &vec![marks(false, false, true); 12]);
    assert!(modified);
    assert_eq!(
        shown(&out),
        vec![
            "l0", "l1", "l2", "l3", "l4", "[... 2 frames omitted by Janus ...]", "l7", "l8", "l9",
            "l10", "l11"
        ]
    );
}

#[test]
fn short_traces_stay() {
    let (out, modified) = condense(&lines(10), &vec![marks(false, false, true); 10]);
    assert!(!modified);
    assert_eq!(shown(&out), shown(&lines(10)));
    let mut m = vec![marks(false, true, false); 10];
    m[0] = marks(true, false, false);
    let (out, modified) = condense(&lines(10), &m);
    assert!(!modified);
    assert_eq!(shown(&out), shown(&lines(10)));
}

#[test]
fn a_traceback_ends_with_its_error_line() {
    let mut text = String::from("Traceback (most recent call last):\n");
    for i in 0..8 {
        text.push_str(&format!("  File \"a.py\", line {}, in f\n    call()\n", i));
    }
    text.push_str("ValueError: bad\nafter");
    let (out, stages) = squeezed(&text);
    assert!(stages.contains(&"B4_stacktrace".to_string()));
    let got: Vec<&str> = out.lines().collect();
    assert_eq!(got.len(), 12);
    assert_eq!(got[5], "[... 8 frames omitted by Janus ...]");
    assert_eq!(got[10], "ValueError: bad");
    assert_eq!(got[11], "after");
}

#[test]
fn repeated_hashes_are_found() {
    assert_eq!(repeats(&vec![7, 8, 7, 7]), vec![false, false, true, true]);
    assert_eq!(repeats(&vec![]), Vec::<bool>::new());
    assert_eq!(note_for(12), "[Janus: duplicate of code block above — 12 tokens omitted]");
}

#[test]
fn repeated_blocks_are_collapsed() {
    let code = "fn main() { let alpha = 1; let beta = 2; let gamma = 3; let delta = 4; }\n";
    let text = format!("```rust\n{}```\nand\n```rust\n{}```\n", code, code);
    let (out, stages) = squeezed(&text);
    assert_eq!(stages, vec!["B5_dedup_blocks"]);
    let n = Tokenizer::new().count_tokens(code).unwrap();
    assert_eq!(
        out,
        format!(
            "```rust\n{}```\nand\n[Janus: duplicate of code block above — {} tokens omitted]\n",
            code, n
        )
    );
}

#[test]
fn stages_report_savings_only() {
    let e = stage_event(5, 3, "S", "why").unwrap();
    assert_eq!((e.tokens_before, e.tokens_after, e.tokens_saved()), (5, 3, 2));
    assert_eq!((e.stage_name.as_str(), e.reason.as_str()), ("S", "why"));
    assert!(stage_event(3, 3, "S", "why").is_none());
    assert!(stage_event(2, 3, "S", "why").is_none());
}

#[test]
fn languages_are_known_by_their_tags() {
    assert_eq!(language("py"), Some(Lang::Python));
    assert_eq!(language("tsx"), Some(Lang::JavaScript));
    assert_eq!(language("rs"), Some(Lang::Rust));
    assert_eq!(language("golang"), Some(Lang::Go));
    assert_eq!(language("c"), None);
    assert_eq!(language("Python"), None);
}

#[test]
fn tags_are_known_in_upper_and_lower_case() {
    for (name, lang) in [
        ("python", Lang::Python),
        ("javascript", Lang::JavaScript),
        ("rust", Lang::Rust),
        ("go", Lang::Go),
    ] {
        assert_eq!(detect_language(name), Some(lang));
        assert_eq!(detect_language(&name.to_uppercase()), Some(lang));
    }
    assert_eq!(detect_language("PyThOn"), Some(Lang::Python));
    assert_eq!(detect_language("Ruby"), None);
    assert_eq!(detect_language(""), None);
}

fn python_block() -> String {
    let mut code = String::from("```Python\n");
    for name in ["alpha", "beta"] {
        code.push_str(&format!("def {}(x):\n", name));
        for i in 0..5 {
            code.push_str(&format!("    x = x + {}\n", i));
        }
        code.push_str("    return x\n\n");
    }
    code.push_str("```\n");
    code
}

#[test]
fn unmentioned_functions_are_pruned() {
    let block = python_block();
    let pattern = CodeBlocks::new().unwrap();
    let tokenizer = Tokenizer::new();
    let (out, events) = prune(&block, "what does ALPHA do?", &pattern, &tokenizer, 5).unwrap();
    assert!(out.contains("def alpha(x):\n    x = x + 0\n"));
    assert!(out.contains("def beta(x):    # [Janus: body pruned — "));
    assert!(!out.contains("def beta(x):\n"));
    assert!(out.starts_with("```Python\n"));
    assert!(out.ends_with("```\n"));
    assert_eq!(events.len(), 1);
    assert_eq!(events[0].stage_name, "C_ast");
    assert!(events[0].tokens_before > events[0].tokens_after);
}

#[test]
fn short_blocks_and_mentioned_functions_stay() {
    let block = python_block();
    let pattern = CodeBlocks::new().unwrap();
    let tokenizer = Tokenizer::new();
    let (out, events) = prune(&block, "nothing", &pattern, &tokenizer, 100).unwrap();
    assert_eq!(out, block);
    assert!(events.is_empty());
    let (out, _) = prune(&block, "alpha and beta", &pattern, &tokenizer, 5).unwrap();
    assert_eq!(out, block);
    let unknown = block.replace("Python", "cobol");
    let (out, _) = prune(&unknown, "nothing", &pattern, &tokenizer, 5).unwrap();
    assert_eq!(out, unknown);
}

#[test]
fn rust_functions_are_pruned() {
    let block = "```rust\nfn keep() {\n    a();\n    b();\n}\n\nfn ünused() {\n    let s = \"é\";\n    c();\n    d();\n    e();\n}\n```";
    let (out, _) = prune(
        block,
        "call keep",
        &CodeBlocks::new().unwrap(),
        &Tokenizer::new(),
        1,
    )
    .unwrap();
    assert!(out.starts_with("```rust\nfn keep() {\n    a();\n    b();\n}\n\nfn ünused() {\n    // [Janus: body pruned — "));
    assert!(out.ends_with(" tokens]\n}\n```"));
}

#[test]
fn a_line_is_cut_at_its_first_comment() {
    assert_eq!(stripped("let x = 1; // see #5"), "let x = 1;");
    assert_eq!(stripped("x = 1  # see // there"), "x = 1");
    assert_eq!(stripped("  // all of it #"), "");
    assert_eq!(stripped("  # all of it //"), "");
    assert_eq!(stripped("a('#') // b"), "a('#')");
    // With a hash behind them, two slashes may divide.
    assert_eq!(stripped("x = a // b  # c"), "x = a // b");
    assert_eq!(stripped("  y = f(1) // 2 # c"), "  y = f(1) // 2");
    assert_eq!(stripped("f(); // 2 # c"), "f();");
    assert_eq!(stripped("x = a // b"), "x = a");
    let (text, stages) = squeezed("let x = 1; // see #5");
    assert_eq!((text.as_str(), stages[0].as_str()), ("let x = 1;", "B2_comments"));
}

fn at(line: &str, c: char) -> Option<usize> {
    find_comment_start(&line.chars().collect::<Vec<char>>(), c)
}

fn slashes(line: &str) -> Option<usize> {
    find_double_slash_comment(&line.chars().collect::<Vec<char>>())
}

#[test]
fn comments_start_at_the_first_bare_sign() {
    assert_eq!(at("a # b # c", '#'), Some(2));
    assert_eq!(at("a ", '#'), None);
    assert_eq!(at("a # anything \"", '#'), Some(2));
    assert_eq!(at("'#' \\# \"#", '#'), None);
    assert_eq!(at("'", '\''), None);
    assert_eq!(at("\"", '"'), None);
    assert_eq!(at("\\", '\\'), None);
    assert_eq!(slashes("http://x // y"), Some(9));
    assert_eq!(slashes("http://x "), None);
    assert_eq!(slashes("http:///x"), Some(6));
    assert_eq!(slashes("\"//\" \\//"), None);
    assert_eq!(slashes("\"//\" \\///"), Some(7));
}

#[test]
fn different_blocks_are_kept() {
    let patterns = Patterns::new().unwrap();
    let text = "```\na\n```\nand\n```\nb\n```\n";
    let staged = collapse_duplicate_blocks(text, &patterns, &Tokenizer::new()).unwrap();
    assert_eq!(staged.text, text);
    assert!(staged.event.is_none());
}
