//! The semantic cache in Redis: its names, its commands and its replies.
use vstd::prelude::*;
use vstd::string::*;
use vstd::utf8::*;

use crate::cache::{CacheStats, CachedResponse, CachedView};
use crate::text;

verus! {

/// How many numbers an embedding has.
pub const DIMENSIONS: usize = 384;

/// The pattern that the keys of all entries match.
pub const ALL_KEYS: &'static str = "janus:cache:*";

/// The similarity from which on an entry counts as there already: 0.95.
pub const NEAR_DUPLICATE_BITS: u64 = 0x3fee_6666_6666_6666;

// ---------------------------------------------------------------------------
// Names
// ---------------------------------------------------------------------------
/// A character of the name of a model as it stands in a key.
pub open spec fn key_char(c: char) -> char {
    if c == '/' || c == '-' || c == '.' {
        '_'
    } else {
        c
    }
}

/// The name of a model as it stands in a key.
pub open spec fn key_name(model: Seq<char>) -> Seq<char> {
    model.map_values(|c: char| key_char(c))
}

fn key_chars(model: &str) -> (r: Vec<char>)
    ensures
        r@ == key_name(model@),
{
    let chars = text::chars_of(model);
    let mut out: Vec<char> = Vec::new();
    let mut i: usize = 0;
    while i < chars.len()
        invariant
            i <= chars@.len(),
            out@ == key_name(chars@.take(i as int)),
        decreases chars@.len() - i,
    {
        let c = chars[i];
        out.push(
            if c == '/' || c == '-' || c == '.' {
                '_'
            } else {
                c
            },
        );
        i += 1;
        assert(out@ =~= key_name(chars@.take(i as int)));
    }
    assert(chars@.take(chars@.len() as int) =~= chars@);
    out
}

/// What the keys of the entries of a model start with.
pub fn model_key_prefix(model: &str) -> (r: String)
    ensures
        r@ == "janus:cache:"@ + key_name(model@) + ":"@,
{
    let mut out = text::chars_of("janus:cache:");
    let name = key_chars(model);
    text::append_chars(&mut out, name.as_slice());
    text::append_str(&mut out, ":");
    text::text_of(out.as_slice())
}

/// The name of the index of a model.
pub fn index_name(model: &str) -> (r: String)
    ensures
        r@ == "janus_cache_"@ + key_name(model@),
        r@ == index_of(model@),
{
    let mut out = text::chars_of("janus_cache_");
    let name = key_chars(model);
    text::append_chars(&mut out, name.as_slice());
    text::text_of(out.as_slice())
}

/// The key of an entry of a model.
pub open spec fn entry_key(model: Seq<char>, id: Seq<char>) -> Seq<char> {
    "janus:cache:"@ + key_name(model) + ":"@ + id
}

/// Every key of an entry matches the pattern of all keys: it starts with what
/// stands before the star.
pub proof fn keys_match_the_pattern(model: Seq<char>, id: Seq<char>)
    ensures
        text::starts_with(entry_key(model, id), "janus:cache:"@),
        ALL_KEYS@ == "janus:cache:"@.push('*'),
{
    let key = entry_key(model, id);
    assert(key.subrange(0, "janus:cache:"@.len() as int) =~= "janus:cache:"@);
    reveal_strlit("janus:cache:*");
    reveal_strlit("janus:cache:");
    assert("janus:cache:*"@ =~= "janus:cache:"@.push('*'));
}

/// An entry with a fresh id leaves all other entries as they are: ids are
/// equally long, and two of them never make the same key, whatever the models
/// are.
pub proof fn fresh_ids_make_fresh_keys(
    model: Seq<char>,
    id: Seq<char>,
    other_model: Seq<char>,
    other_id: Seq<char>,
)
    requires
        id.len() == other_id.len(),
        id != other_id,
    ensures
        entry_key(model, id) != entry_key(other_model, other_id),
{
    let a = entry_key(model, id);
    let b = entry_key(other_model, other_id);
    if a == b {
        assert(a.subrange(a.len() - id.len(), a.len() as int) =~= id);
        assert(b.subrange(b.len() - id.len(), b.len() as int) =~= other_id);
    }
}

// ---------------------------------------------------------------------------
// Commands
// ---------------------------------------------------------------------------
/// The bytes of texts.
pub open spec fn args_of(texts: Seq<Seq<char>>) -> Seq<Seq<u8>> {
    texts.map_values(|t: Seq<char>| encode_utf8(t))
}

pub open spec fn arg_views(args: Seq<Vec<u8>>) -> Seq<Seq<u8>> {
    args.map_values(|a: Vec<u8>| a@)
}

fn add_arg(args: &mut Vec<Vec<u8>>, t: &str)
    ensures
        arg_views(final(args)@) == arg_views(old(args)@).push(encode_utf8(t@)),
{
    let ghost before = args@;
    let bytes = text::bytes_of(t);
    args.push(bytes);
    assert(arg_views(args@) =~= arg_views(before).push(bytes@));
}

/// The name of the index of a model.
pub open spec fn index_of(model: Seq<char>) -> Seq<char> {
    "janus_cache_"@ + key_name(model)
}

/// The words of `FT.CREATE`.
pub open spec fn create_words(model: Seq<char>) -> Seq<Seq<char>> {
    seq![
        index_of(model),
        "ON"@,
        "HASH"@,
        "PREFIX"@,
        "1"@,
        "janus:cache:"@ + key_name(model) + ":"@,
        "SCHEMA"@,
        "embedding"@,
        "VECTOR"@,
        "HNSW"@,
        "6"@,
        "TYPE"@,
        "FLOAT32"@,
        "DIM"@,
        text::decimal(DIMENSIONS as nat),
        "DISTANCE_METRIC"@,
        "COSINE"@,
        "model"@,
        "TAG"@,
        "tokens_saved"@,
        "NUMERIC"@,
    ]
}

/// The words of `FT.SEARCH` before and behind the embedding.
pub open spec fn search_words(model: Seq<char>) -> (Seq<Seq<char>>, Seq<Seq<char>>) {
    (
        seq![
            index_of(model),
            "*=>[KNN 1 @embedding $vec AS score]"@,
            "PARAMS"@,
            "2"@,
            "vec"@,
        ],
        seq!["SORTBY"@, "score"@, "DIALECT"@, "2"@],
    )
}

/// What `FT.CREATE` is called with: an index over the entries of a model, by
/// the cosine distance of their embeddings.
pub fn create_args(model: &str) -> (r: Vec<Vec<u8>>)
    ensures
        arg_views(r@) == args_of(
            seq![
                "janus_cache_"@ + key_name(model@),
                "ON"@,
                "HASH"@,
                "PREFIX"@,
                "1"@,
                "janus:cache:"@ + key_name(model@) + ":"@,
                "SCHEMA"@,
                "embedding"@,
                "VECTOR"@,
                "HNSW"@,
                "6"@,
                "TYPE"@,
                "FLOAT32"@,
                "DIM"@,
                text::decimal(DIMENSIONS as nat),
                "DISTANCE_METRIC"@,
                "COSINE"@,
                "model"@,
                "TAG"@,
                "tokens_saved"@,
                "NUMERIC"@,
            ],
        ),
        arg_views(r@) == args_of(create_words(model@)),
{
    let mut args: Vec<Vec<u8>> = Vec::new();
    assert(arg_views(args@) =~= Seq::empty());
    let dims = text::text_of(text::decimal_chars(DIMENSIONS as u64).as_slice());
    add_arg(&mut args, index_name(model).as_str());
    add_arg(&mut args, "ON");
    add_arg(&mut args, "HASH");
    add_arg(&mut args, "PREFIX");
    add_arg(&mut args, "1");
    add_arg(&mut args, model_key_prefix(model).as_str());
    add_arg(&mut args, "SCHEMA");
    add_arg(&mut args, "embedding");
    add_arg(&mut args, "VECTOR");
    add_arg(&mut args, "HNSW");
    add_arg(&mut args, "6");
    add_arg(&mut args, "TYPE");
    add_arg(&mut args, "FLOAT32");
    add_arg(&mut args, "DIM");
    add_arg(&mut args, dims.as_str());
    add_arg(&mut args, "DISTANCE_METRIC");
    add_arg(&mut args, "COSINE");
    add_arg(&mut args, "model");
    add_arg(&mut args, "TAG");
    add_arg(&mut args, "tokens_saved");
    add_arg(&mut args, "NUMERIC");
    assert(arg_views(args@) =~= args_of(
        seq![
            "janus_cache_"@ + key_name(model@),
            "ON"@,
            "HASH"@,
            "PREFIX"@,
            "1"@,
            "janus:cache:"@ + key_name(model@) + ":"@,
            "SCHEMA"@,
            "embedding"@,
            "VECTOR"@,
            "HNSW"@,
            "6"@,
            "TYPE"@,
            "FLOAT32"@,
            "DIM"@,
            text::decimal(DIMENSIONS as nat),
            "DISTANCE_METRIC"@,
            "COSINE"@,
            "model"@,
            "TAG"@,
            "tokens_saved"@,
            "NUMERIC"@,
        ],
    ));
    args
}

/// What `FT.SEARCH` is called with: the entry of a model whose embedding is
/// nearest to another one.
pub fn search_args(model: &str, embedding: Vec<u8>) -> (r: Vec<Vec<u8>>)
    ensures
        arg_views(r@) == args_of(
            seq![
                "janus_cache_"@ + key_name(model@),
                "*=>[KNN 1 @embedding $vec AS score]"@,
                "PARAMS"@,
                "2"@,
                "vec"@,
            ],
        ).push(embedding@) + args_of(seq!["SORTBY"@, "score"@, "DIALECT"@, "2"@]),
        arg_views(r@) == args_of(search_words(model@).0).push(embedding@) + args_of(
            search_words(model@).1,
        ),
{
    let mut args: Vec<Vec<u8>> = Vec::new();
    assert(arg_views(args@) =~= Seq::empty());
    add_arg(&mut args, index_name(model).as_str());
    add_arg(&mut args, "*=>[KNN 1 @embedding $vec AS score]");
    add_arg(&mut args, "PARAMS");
    add_arg(&mut args, "2");
    add_arg(&mut args, "vec");
    let ghost before = args@;
    args.push(embedding);
    assert(arg_views(args@) =~= arg_views(before).push(embedding@));
    add_arg(&mut args, "SORTBY");
    add_arg(&mut args, "score");
    add_arg(&mut args, "DIALECT");
    add_arg(&mut args, "2");
    assert(arg_views(args@) =~= args_of(
        seq![
            "janus_cache_"@ + key_name(model@),
            "*=>[KNN 1 @embedding $vec AS score]"@,
            "PARAMS"@,
            "2"@,
            "vec"@,
        ],
    ).push(embedding@) + args_of(seq!["SORTBY"@, "score"@, "DIALECT"@, "2"@]));
    args
}

/// The four bytes of a number, the lowest first.
pub open spec fn le_bytes(bits: u32) -> Seq<u8> {
    seq![
        (bits % 256) as u8,
        ((bits / 256) % 256) as u8,
        ((bits / 65536) % 256) as u8,
        (bits / 16777216) as u8,
    ]
}

/// The bytes of an embedding, whose numbers are given as the bits of IEEE 754
/// singles.
pub open spec fn embedding_bytes(bits: Seq<u32>) -> Seq<u8>
    decreases bits.len(),
{
    if bits.len() == 0 {
        Seq::empty()
    } else {
        embedding_bytes(bits.drop_last()) + le_bytes(bits.last())
    }
}

/// The bytes of an embedding.
pub fn embedding_to_bytes(bits: &Vec<u32>) -> (r: Vec<u8>)
    ensures
        r@ == embedding_bytes(bits@),
{
    let mut out: Vec<u8> = Vec::new();
    let mut i: usize = 0;
    assert(bits@.take(0) =~= Seq::empty());
    while i < bits.len()
        invariant
            i <= bits@.len(),
            out@ == embedding_bytes(bits@.take(i as int)),
        decreases bits@.len() - i,
    {
        let ghost before = out@;
        let b = bits[i];
        assert(bits@.take(i + 1).drop_last() =~= bits@.take(i as int));
        out.push((b % 256) as u8);
        out.push(((b / 256) % 256) as u8);
        out.push(((b / 65536) % 256) as u8);
        out.push((b / 16777216) as u8);
        assert(out@ =~= before + le_bytes(b));
        i += 1;
    }
    assert(bits@.take(bits@.len() as int) =~= bits@);
    out
}

/// The bytes of an embedding are four for each of its numbers, and no two
/// numbers have the same bytes.
pub proof fn embedding_bytes_keep_every_number(bits: Seq<u32>, i: int)
    requires
        0 <= i < bits.len(),
    ensures
        embedding_bytes(bits).len() == 4 * bits.len(),
        embedding_bytes(bits).subrange(4 * i, 4 * i + 4) == le_bytes(bits[i]),
        bits[i] == le_bytes(bits[i])[0] + 256 * le_bytes(bits[i])[1] + 65536 * le_bytes(
            bits[i],
        )[2] + 16777216 * le_bytes(bits[i])[3],
    decreases bits.len(),
{
    let less = bits.drop_last();
    lemma_embedding_length(less);
    let all = embedding_bytes(bits);
    if i < less.len() {
        embedding_bytes_keep_every_number(less, i);
        assert(less[i] == bits[i]);
        assert(all.subrange(4 * i, 4 * i + 4) =~= embedding_bytes(less).subrange(
            4 * i,
            4 * i + 4,
        ));
    } else {
        assert(all.subrange(4 * i, 4 * i + 4) =~= le_bytes(bits[i]));
        let b = bits[i];
        assert(b == (b % 256) + 256 * ((b / 256) % 256) + 65536 * ((b / 65536) % 256) + 16777216 * (
        b / 16777216));
    }
}

proof fn lemma_embedding_length(bits: Seq<u32>)
    ensures
        embedding_bytes(bits).len() == 4 * bits.len(),
    decreases bits.len(),
{
    if bits.len() > 0 {
        lemma_embedding_length(bits.drop_last());
    }
}

/// What is stored of a response: the names of its fields, and their bytes.
pub open spec fn stored_fields(
    embedding: Seq<u8>,
    response: Seq<u8>,
    model: Seq<char>,
    tokens_saved: nat,
) -> Seq<(Seq<char>, Seq<u8>)> {
    seq![
        ("embedding"@, embedding),
        ("response"@, response),
        ("model"@, encode_utf8(model)),
        ("tokens_saved"@, encode_utf8(text::decimal(tokens_saved))),
    ]
}

pub open spec fn pair_views(fields: Seq<(String, Vec<u8>)>) -> Seq<(Seq<char>, Seq<u8>)> {
    fields.map_values(|f: (String, Vec<u8>)| (f.0@, f.1@))
}

/// The fields of an entry: its embedding, the response, the model and the
/// tokens that it saved.
pub fn entry_fields(embedding: Vec<u8>, response: &[u8], model: &str, tokens_saved: usize) -> (r:
    Vec<(String, Vec<u8>)>)
    ensures
        r@.len() == 4,
        r@[0].0@ == "embedding"@ && r@[0].1@ == embedding@,
        r@[1].0@ == "response"@ && r@[1].1@ == response@,
        r@[2].0@ == "model"@ && r@[2].1@ == encode_utf8(model@),
        r@[3].0@ == "tokens_saved"@ && r@[3].1@ == encode_utf8(
            text::decimal(tokens_saved as nat),
        ),
        pair_views(r@) == stored_fields(embedding@, response@, model@, tokens_saved as nat),
{
    let mut body: Vec<u8> = Vec::new();
    body.extend_from_slice(response);
    let saved = text::text_of(text::decimal_chars(tokens_saved as u64).as_slice());
    assert(body@ =~= response@);
    let fields = vec![
        (text::owned("embedding"), embedding),
        (text::owned("response"), body),
        (text::owned("model"), text::bytes_of(model)),
        (text::owned("tokens_saved"), text::bytes_of(saved.as_str())),
    ];
    assert(pair_views(fields@) =~= stored_fields(
        embedding@,
        response@,
        model@,
        tokens_saved as nat,
    ));
    fields
}

/// What a store writes: a hash under a key of its own, and the seconds after
/// which it expires.
pub struct NewEntry {
    pub key: String,
    pub fields: Vec<(String, Vec<u8>)>,
    pub ttl_seconds: u64,
}

/// What a store writes of a response. The id, which has to be a fresh one, makes
/// the key.
pub fn new_entry(
    model: &str,
    id: &str,
    embedding: &Vec<u32>,
    response: &[u8],
    tokens_saved: usize,
    ttl_seconds: u64,
) -> (r: NewEntry)
    ensures
        r.key@ == entry_key(model@, id@),
        r.ttl_seconds == ttl_seconds,
        pair_views(r.fields@) == stored_fields(
            embedding_bytes(embedding@),
            response@,
            model@,
            tokens_saved as nat,
        ),
        r.fields@.len() == 4,
        r.fields@[0].0@ == "embedding"@ && r.fields@[0].1@ == embedding_bytes(embedding@),
        r.fields@[1].0@ == "response"@ && r.fields@[1].1@ == response@,
        r.fields@[2].0@ == "model"@ && r.fields@[2].1@ == encode_utf8(model@),
        r.fields@[3].0@ == "tokens_saved"@ && r.fields@[3].1@ == encode_utf8(
            text::decimal(tokens_saved as nat),
        ),
{
    let mut key = text::chars_of(model_key_prefix(model).as_str());
    text::append_str(&mut key, id);
    NewEntry {
        key: text::text_of(key.as_slice()),
        fields: entry_fields(embedding_to_bytes(embedding), response, model, tokens_saved),
        ttl_seconds,
    }
}

// ---------------------------------------------------------------------------
// Replies
// ---------------------------------------------------------------------------
/// What came of creating an index.
#[derive(Debug, Clone, Copy, PartialEq, Eq, Structural)]
pub enum IndexError {
    /// The index is there: somebody else created it at the same time.
    Exists,
    /// The server has no search module.
    NoModule,
    /// Something else went wrong.
    Other,
}

/// What an error message about creating an index means.
pub open spec fn index_error(message: Seq<char>) -> IndexError {
    if text::contains_text(message, "already exists"@) {
        IndexError::Exists
    } else if text::contains_text(message, "unknown command"@) || text::contains_text(
        message,
        "ERR unknown"@,
    ) {
        IndexError::NoModule
    } else {
        IndexError::Other
    }
}

fn mentions(message: &Vec<char>, words: &str) -> (r: bool)
    ensures
        r == text::contains_text(message@, words@),
{
    let p = text::chars_of(words);
    text::holds_text(message.as_slice(), p.as_slice())
}

/// What an error message about creating an index means.
pub fn classify_index_error(message: &str) -> (r: IndexError)
    ensures
        r == index_error(message@),
{
    let chars = text::chars_of(message);
    if mentions(&chars, "already exists") {
        IndexError::Exists
    } else if mentions(&chars, "unknown command") || mentions(&chars, "ERR unknown") {
        IndexError::NoModule
    } else {
        IndexError::Other
    }
}

/// Whether a list of modules, given as a text in lower case, names a search
/// module.
pub fn names_search(modules: &str) -> (r: bool)
    ensures
        r == text::contains_text(modules@, "search"@),
{
    let chars = text::chars_of(modules);
    mentions(&chars, "search")
}

/// A list of modules names a search module.
pub open spec fn offers_search(modules: Seq<char>) -> bool {
    text::contains_text(text::lowercase(modules), "search"@)
}

/// Whether a list of modules, given as a text, names a search module.
pub fn has_search_module(modules: &str) -> (r: bool)
    ensures
        r == text::contains_text(text::lowercase(modules@), "search"@),
        r == offers_search(modules@),
{
    names_search(text::lower(modules).as_str())
}

/// A reply of the server: a list, a string of bytes, or something else.
pub enum Reply {
    Items(Vec<Reply>),
    Bytes(Vec<u8>),
    Other,
}

/// A field of an entry: its name, and its value as bytes and as a text. A
/// value that is no string of bytes is missing.
pub struct Field {
    pub name: String,
    pub value: Option<(Vec<u8>, String)>,
}

/// What a field of an entry is.
pub struct FieldView {
    pub name: Seq<char>,
    pub value: Option<(Seq<u8>, Seq<char>)>,
}

impl View for Field {
    type V = FieldView;

    open spec fn view(&self) -> FieldView {
        FieldView {
            name: self.name@,
            value: match self.value {
                Some((bytes, t)) => Some((bytes@, t@)),
                None => None,
            },
        }
    }
}

pub open spec fn field_views(fields: Seq<Field>) -> Seq<FieldView> {
    fields.map_values(|f: Field| f@)
}

/// The value that a reply is, if it is a string of bytes.
pub open spec fn value_of(reply: Reply) -> Option<(Seq<u8>, Seq<char>)> {
    match reply {
        Reply::Bytes(b) => Some((b@, text::utf8_lossy(b@))),
        _ => None,
    }
}

/// The fields that a list of names and values makes. A name that is no string
/// of bytes is passed over with its value, and so is a name without a value.
pub open spec fn fields_of(items: Seq<Reply>) -> Seq<FieldView>
    decreases items.len(),
{
    if items.len() < 2 {
        Seq::empty()
    } else {
        let rest = fields_of(items.skip(2));
        match items[0] {
            Reply::Bytes(b) => seq![
                FieldView { name: text::utf8_lossy(b@), value: value_of(items[1]) },
            ] + rest,
            _ => rest,
        }
    }
}

/// Reads the fields that a list of names and values makes.
fn read_fields(items: &Vec<Reply>) -> (r: Vec<Field>)
    ensures
        field_views(r@) == fields_of(items@),
{
    let mut out: Vec<Field> = Vec::new();
    let mut i: usize = 0;
    assert(items@.skip(0) =~= items@);
    assert(field_views(out@) + fields_of(items@) =~= fields_of(items@));
    while items.len() - i >= 2
        invariant
            i <= items@.len(),
            field_views(out@) + fields_of(items@.skip(i as int)) == fields_of(items@),
        decreases items@.len() - i,
    {
        let ghost rest = items@.skip(i as int);
        let ghost before = out@;
        assert(rest.skip(2) =~= items@.skip(i + 2));
        assert(rest[0] == items@[i as int] && rest[1] == items@[i + 1]);
        match &items[i] {
            Reply::Bytes(name) => {
                let value = match &items[i + 1] {
                    Reply::Bytes(b) => {
                        let mut copy: Vec<u8> = Vec::new();
                        copy.extend_from_slice(b.as_slice());
                        assert(copy@ =~= b@);
                        Some((copy, text::lossy(b.as_slice())))
                    },
                    _ => None,
                };
                let field = Field { name: text::lossy(name.as_slice()), value };
                out.push(field);
                assert(field_views(out@) =~= field_views(before).push(field@));
            },
            _ => {},
        }
        assert(field_views(out@) + fields_of(items@.skip(i + 2)) =~= field_views(before)
            + fields_of(rest));
        i += 2;
    }
    assert(field_views(out@) =~= fields_of(items@));
    out
}

/// An entry that a search found: its distance as a text, its response, its
/// model and the tokens that it saved.
pub struct Record {
    pub score: Option<String>,
    pub response: Option<Vec<u8>>,
    pub model: String,
    pub tokens_saved: usize,
}

/// What an entry that a search found is.
pub struct RecordView {
    pub score: Option<Seq<char>>,
    pub response: Option<Seq<u8>>,
    pub model: Seq<char>,
    pub tokens_saved: nat,
}

impl View for Record {
    type V = RecordView;

    open spec fn view(&self) -> RecordView {
        RecordView {
            score: match self.score {
                Some(s) => Some(s@),
                None => None,
            },
            response: match self.response {
                Some(b) => Some(b@),
                None => None,
            },
            model: self.model@,
            tokens_saved: self.tokens_saved as nat,
        }
    }
}

/// A count that a text gives; 0 where it gives none.
pub open spec fn count_in(t: Seq<char>) -> nat {
    match text::number_in(t) {
        Some(n) => if n <= usize::MAX {
            n
        } else {
            0
        },
        None => 0,
    }
}

/// An entry once a field has come.
pub open spec fn record_with(r: RecordView, f: FieldView) -> RecordView {
    match f.value {
        Some((bytes, t)) => if f.name == "score"@ {
            RecordView { score: Some(t), ..r }
        } else if f.name == "response"@ {
            RecordView { response: Some(bytes), ..r }
        } else if f.name == "model"@ {
            RecordView { model: t, ..r }
        } else if f.name == "tokens_saved"@ {
            RecordView { tokens_saved: count_in(t), ..r }
        } else {
            r
        },
        None => r,
    }
}

/// The entry that fields make.
pub open spec fn record_of(fields: Seq<FieldView>) -> RecordView
    decreases fields.len(),
{
    if fields.len() == 0 {
        RecordView { score: None, response: None, model: Seq::empty(), tokens_saved: 0 }
    } else {
        record_with(record_of(fields.drop_last()), fields.last())
    }
}

/// Puts together the entry that fields make.
pub fn read_record(fields: &Vec<Field>) -> (r: Record)
    ensures
        r@ == record_of(field_views(fields@)),
{
    let ghost views = field_views(fields@);
    let mut record = Record {
        score: None,
        response: None,
        model: String::new(),
        tokens_saved: 0,
    };
    let mut i: usize = 0;
    assert(views.take(0) =~= Seq::empty());
    while i < fields.len()
        invariant
            i <= fields@.len(),
            views == field_views(fields@),
            record@ == record_of(views.take(i as int)),
        decreases fields@.len() - i,
    {
        let f = &fields[i];
        proof {
            assert(views.take(i + 1).drop_last() =~= views.take(i as int));
            assert(views.take(i + 1).last() == f@);
        }
        let name = f.name.as_str();
        match &f.value {
            Some((bytes, t)) => {
                if text::same_text(name, "score") {
                    record.score = Some(text::owned(t.as_str()));
                } else if text::same_text(name, "response") {
                    let mut copy: Vec<u8> = Vec::new();
                    copy.extend_from_slice(bytes.as_slice());
                    assert(copy@ =~= bytes@);
                    record.response = Some(copy);
                } else if text::same_text(name, "model") {
                    record.model = text::owned(t.as_str());
                } else if text::same_text(name, "tokens_saved") {
                    record.tokens_saved = match text::parse_usize(t.as_str()) {
                        Some(n) => n,
                        None => 0,
                    };
                }
            },
            None => {},
        }
        i += 1;
    }
    assert(views.take(views.len() as int) =~= views);
    record
}

/// The entry that the reply to a search holds: a count, a key, and the fields
/// of the nearest entry.
pub open spec fn found_in(reply: Reply) -> Option<RecordView> {
    match reply {
        Reply::Items(items) => if items@.len() >= 3 {
            match items@[2] {
                Reply::Items(fields) => Some(record_of(fields_of(fields@))),
                _ => None,
            }
        } else {
            None
        },
        _ => None,
    }
}

/// Reads the entry that the reply to a search holds.
pub fn parse_search_reply(reply: &Reply) -> (r: Option<Record>)
    ensures
        match found_in(*reply) {
            Some(v) => r matches Some(record) && record@ == v,
            None => r is None,
        },
{
    match reply {
        Reply::Items(items) => {
            if items.len() >= 3 {
                match &items[2] {
                    Reply::Items(fields) => Some(read_record(&read_fields(fields))),
                    _ => None,
                }
            } else {
                None
            }
        },
        _ => None,
    }
}

/// What the keys of all entries say of how the cache is used.
pub fn stats_of_keys(keys: usize) -> (r: CacheStats)
    ensures
        r == (CacheStats { total_entries: keys as u64, total_hits: 0, total_misses: 0 }),
{
    CacheStats { total_entries: keys as u64, total_hits: 0, total_misses: 0 }
}

/// An entry that was stored is read back by a search: its response, its model
/// and the tokens that it saved.
pub proof fn stored_entries_are_read_back(
    score: Seq<char>,
    embedding: (Seq<u8>, Seq<char>),
    response: (Seq<u8>, Seq<char>),
    model: Seq<char>,
    tokens_saved: nat,
)
    requires
        tokens_saved <= usize::MAX,
    ensures
        ({
            let r = record_of(
                seq![
                    FieldView { name: "score"@, value: Some((encode_utf8(score), score)) },
                    FieldView { name: "embedding"@, value: Some(embedding) },
                    FieldView { name: "response"@, value: Some(response) },
                    FieldView { name: "model"@, value: Some((encode_utf8(model), model)) },
                    FieldView {
                        name: "tokens_saved"@,
                        value: Some(
                            (
                                encode_utf8(text::decimal(tokens_saved)),
                                text::decimal(tokens_saved),
                            ),
                        ),
                    },
                ],
            );
            &&& r.score == Some(score)
            &&& r.response == Some(response.0)
            &&& r.model == model
            &&& r.tokens_saved == tokens_saved
        }),
{
    text::written_numbers_are_read_back(tokens_saved);
    reveal_strlit("score");
    reveal_strlit("embedding");
    reveal_strlit("response");
    reveal_strlit("model");
    reveal_strlit("tokens_saved");
    assert("embedding"@.len() == 9);
    assert("response"@.len() == 8);
    assert("tokens_saved"@.len() == 12);
    assert("score"@[0] == 's' && "model"@[0] == 'm');
    let f0 = FieldView { name: "score"@, value: Some((encode_utf8(score), score)) };
    let f1 = FieldView { name: "embedding"@, value: Some(embedding) };
    let f2 = FieldView { name: "response"@, value: Some(response) };
    let f3 = FieldView { name: "model"@, value: Some((encode_utf8(model), model)) };
    let f4 = FieldView {
        name: "tokens_saved"@,
        value: Some((encode_utf8(text::decimal(tokens_saved)), text::decimal(tokens_saved))),
    };
    assert(seq![f0, f1, f2, f3, f4].drop_last() =~= seq![f0, f1, f2, f3]);
    assert(seq![f0, f1, f2, f3].drop_last() =~= seq![f0, f1, f2]);
    assert(seq![f0, f1, f2].drop_last() =~= seq![f0, f1]);
    assert(seq![f0, f1].drop_last() =~= seq![f0]);
    assert(seq![f0].drop_last() =~= Seq::empty());
    reveal_with_fuel(record_of, 6);
}

// ---------------------------------------------------------------------------
// The course of a lookup and of a store
// ---------------------------------------------------------------------------
/// What the cache is asked for.
#[derive(Debug, Clone, Copy, PartialEq, Eq, Structural)]
pub enum Purpose {
    /// A response to what an embedding stands for.
    Lookup,
    /// To keep a response, unless there is one for nearly the same.
    Store,
}

/// How far the cache has come.
pub enum TaskPhase {
    /// The index of the model is looked for.
    Checking,
    /// The index of the model is being created.
    Creating,
    /// The nearest entry is being searched for.
    Searching,
    /// The nearest entry is held against what is asked for.
    Comparing { response: Vec<u8>, model: String, tokens_saved: usize },
    /// Nothing is left to do.
    Done,
}

/// How far the cache has come.
pub enum TaskPhaseView {
    Checking,
    Creating,
    Searching,
    Comparing { response: Seq<u8>, model: Seq<char>, tokens_saved: nat },
    Done,
}

impl View for TaskPhase {
    type V = TaskPhaseView;

    open spec fn view(&self) -> TaskPhaseView {
        match *self {
            TaskPhase::Checking => TaskPhaseView::Checking,
            TaskPhase::Creating => TaskPhaseView::Creating,
            TaskPhase::Searching => TaskPhaseView::Searching,
            TaskPhase::Comparing { response, model, tokens_saved } => TaskPhaseView::Comparing {
                response: response@,
                model: model@,
                tokens_saved: tokens_saved as nat,
            },
            TaskPhase::Done => TaskPhaseView::Done,
        }
    }
}

/// What has happened.
pub enum TaskInput {
    /// The index is there, or not.
    Checked(bool),
    /// The index has been created, or there is a message why not.
    Created(Option<String>),
    /// The server has answered a search, or failed.
    Searched(Option<Reply>),
    /// The nearest entry is near enough, with its similarity, or not.
    Compared(Option<u64>),
}

/// What is to be done.
pub enum TaskAction {
    /// Look for the index of the model.
    CheckIndex,
    /// Create the index of the model.
    CreateIndex,
    /// Search for the nearest entry.
    Search,
    /// Hold the distance of the nearest entry, given as a text, against what is
    /// asked for.
    Compare(String),
    /// Give a response out, or none.
    Give(Option<CachedResponse>),
    /// Write the entry.
    Write,
    /// Leave the cache as it is.
    Skip,
    /// Give up.
    Fail(IndexError),
    /// Do nothing more.
    Nothing,
}

/// What is to be done.
pub enum TaskActionView {
    CheckIndex,
    CreateIndex,
    Search,
    Compare(Seq<char>),
    Give(Option<CachedView>),
    Write,
    Skip,
    Fail(IndexError),
    Nothing,
}

impl View for TaskAction {
    type V = TaskActionView;

    open spec fn view(&self) -> TaskActionView {
        match *self {
            TaskAction::CheckIndex => TaskActionView::CheckIndex,
            TaskAction::CreateIndex => TaskActionView::CreateIndex,
            TaskAction::Search => TaskActionView::Search,
            TaskAction::Compare(t) => TaskActionView::Compare(t@),
            TaskAction::Give(found) => TaskActionView::Give(
                match found {
                    Some(c) => Some(c@),
                    None => None,
                },
            ),
            TaskAction::Write => TaskActionView::Write,
            TaskAction::Skip => TaskActionView::Skip,
            TaskAction::Fail(e) => TaskActionView::Fail(e),
            TaskAction::Nothing => TaskActionView::Nothing,
        }
    }
}

/// What comes of an event.
pub struct TaskStep {
    pub phase: TaskPhaseView,
    pub action: TaskActionView,
}

/// There is no entry near enough: a lookup gives nothing out, and a store
/// writes.
pub open spec fn without_match(purpose: Purpose) -> TaskStep {
    TaskStep {
        phase: TaskPhaseView::Done,
        action: match purpose {
            Purpose::Lookup => TaskActionView::Give(None),
            Purpose::Store => TaskActionView::Write,
        },
    }
}

pub open spec fn searching() -> TaskStep {
    TaskStep { phase: TaskPhaseView::Searching, action: TaskActionView::Search }
}

/// What comes of the reply to a search: an entry with a distance and a
/// response is compared.
pub open spec fn searched(purpose: Purpose, reply: Option<Reply>) -> TaskStep {
    match reply {
        Some(reply) => match found_in(reply) {
            Some(r) => match (r.score, r.response) {
                (Some(score), Some(response)) => TaskStep {
                    phase: TaskPhaseView::Comparing {
                        response,
                        model: r.model,
                        tokens_saved: r.tokens_saved,
                    },
                    action: TaskActionView::Compare(score),
                },
                _ => without_match(purpose),
            },
            None => without_match(purpose),
        },
        None => without_match(purpose),
    }
}

/// What comes of an event. One that cannot happen at this point changes
/// nothing.
pub open spec fn next_task(purpose: Purpose, phase: TaskPhaseView, input: TaskInput) -> TaskStep {
    match (phase, input) {
        (TaskPhaseView::Checking, TaskInput::Checked(there)) => if there {
            searching()
        } else {
            TaskStep { phase: TaskPhaseView::Creating, action: TaskActionView::CreateIndex }
        },
        (TaskPhaseView::Creating, TaskInput::Created(problem)) => match problem {
            Some(message) => if index_error(message@) == IndexError::Exists {
                searching()
            } else {
                TaskStep {
                    phase: TaskPhaseView::Done,
                    action: TaskActionView::Fail(index_error(message@)),
                }
            },
            None => searching(),
        },
        (TaskPhaseView::Searching, TaskInput::Searched(reply)) => searched(purpose, reply),
        (
            TaskPhaseView::Comparing { response, model, tokens_saved },
            TaskInput::Compared(near),
        ) => match near {
            Some(similarity_bits) => TaskStep {
                phase: TaskPhaseView::Done,
                action: match purpose {
                    Purpose::Lookup => TaskActionView::Give(
                        Some(
                            CachedView {
                                response_body: response,
                                model,
                                tokens_saved,
                                similarity_bits,
                            },
                        ),
                    ),
                    Purpose::Store => TaskActionView::Skip,
                },
            },
            None => without_match(purpose),
        },
        _ => TaskStep { phase, action: TaskActionView::Nothing },
    }
}

/// A lookup or a store on its way.
pub struct CacheTask {
    pub purpose: Purpose,
    pub phase: TaskPhase,
}

impl CacheTask {
    /// Starts a lookup or a store: the index of the model has to be there.
    pub fn begin(purpose: Purpose) -> (r: (Self, TaskAction))
        ensures
            r.0.purpose == purpose,
            r.0.phase@ == TaskPhaseView::Checking,
            r.1@ == TaskActionView::CheckIndex,
    {
        (CacheTask { purpose, phase: TaskPhase::Checking }, TaskAction::CheckIndex)
    }

    /// There is no entry near enough.
    fn no_match(&mut self) -> (r: TaskAction)
        ensures
            final(self).purpose == old(self).purpose,
            final(self).phase@ == without_match(old(self).purpose).phase,
            r@ == without_match(old(self).purpose).action,
    {
        self.phase = TaskPhase::Done;
        match self.purpose {
            Purpose::Lookup => TaskAction::Give(None),
            Purpose::Store => TaskAction::Write,
        }
    }

    /// Takes in the reply to a search.
    fn take_reply(&mut self, reply: Option<Reply>) -> (r: TaskAction)
        ensures
            final(self).purpose == old(self).purpose,
            final(self).phase@ == searched(old(self).purpose, reply).phase,
            r@ == searched(old(self).purpose, reply).action,
    {
        let found = match &reply {
            Some(reply) => parse_search_reply(reply),
            None => None,
        };
        match found {
            Some(record) => match (record.score, record.response) {
                (Some(score), Some(response)) => {
                    self.phase = TaskPhase::Comparing {
                        response,
                        model: record.model,
                        tokens_saved: record.tokens_saved,
                    };
                    TaskAction::Compare(score)
                },
                _ => self.no_match(),
            },
            None => self.no_match(),
        }
    }

    /// Takes in what has happened, and says what is to be done.
    pub fn step(&mut self, input: TaskInput) -> (r: TaskAction)
        ensures
            final(self).purpose == old(self).purpose,
            final(self).phase@ == next_task(old(self).purpose, old(self).phase@, input).phase,
            r@ == next_task(old(self).purpose, old(self).phase@, input).action,
    {
        let mut phase = TaskPhase::Done;
        std::mem::swap(&mut self.phase, &mut phase);
        match (phase, input) {
            (TaskPhase::Checking, TaskInput::Checked(there)) => {
                if there {
                    self.phase = TaskPhase::Searching;
                    TaskAction::Search
                } else {
                    self.phase = TaskPhase::Creating;
                    TaskAction::CreateIndex
                }
            },
            (TaskPhase::Creating, TaskInput::Created(problem)) => {
                let error = match &problem {
                    Some(message) => classify_index_error(message.as_str()),
                    None => IndexError::Exists,
                };
                match error {
                    IndexError::Exists => {
                        self.phase = TaskPhase::Searching;
                        TaskAction::Search
                    },
                    _ => TaskAction::Fail(error),
                }
            },
            (TaskPhase::Searching, TaskInput::Searched(reply)) => self.take_reply(reply),
            (
                TaskPhase::Comparing { response, model, tokens_saved },
                TaskInput::Compared(near),
            ) => match near {
                Some(similarity_bits) => match self.purpose {
                    Purpose::Lookup => TaskAction::Give(
                        Some(
                            CachedResponse {
                                response_body: response,
                                model,
                                tokens_saved,
                                similarity_bits,
                            },
                        ),
                    ),
                    Purpose::Store => TaskAction::Skip,
                },
                None => self.no_match(),
            },
            (phase, _) => {
                self.phase = phase;
                TaskAction::Nothing
            },
        }
    }
}

/// A lookup writes nothing, and a store gives nothing out.
pub proof fn lookups_only_read(purpose: Purpose, phase: TaskPhaseView, input: TaskInput)
    ensures
        ({
            let action = next_task(purpose, phase, input).action;
            &&& purpose == Purpose::Lookup ==> action != TaskActionView::Write && action
                != TaskActionView::Skip
            &&& purpose == Purpose::Store ==> !(action is Give)
        }),
{
}

/// A response is not stored where there is one for nearly the same.
pub proof fn near_duplicates_are_not_stored(
    response: Seq<u8>,
    model: Seq<char>,
    tokens_saved: nat,
    similarity_bits: u64,
)
    ensures
        next_task(
            Purpose::Store,
            TaskPhaseView::Comparing { response, model, tokens_saved },
            TaskInput::Compared(Some(similarity_bits)),
        ).action == TaskActionView::Skip,
{
}

/// A store writes exactly once, unless the nearest entry is near enough: it
/// writes nothing then.
pub proof fn stores_write_once_unless_there_is_a_near_entry(
    reply: Option<Reply>,
    near: Option<u64>,
    later: TaskInput,
)
    ensures
        ({
            let first = searched(Purpose::Store, reply);
            let second = next_task(Purpose::Store, first.phase, TaskInput::Compared(near));
            if first.action is Compare {
                &&& near is Some ==> second.action == TaskActionView::Skip
                &&& near is None ==> second.action == TaskActionView::Write
                &&& second.phase == TaskPhaseView::Done
            } else {
                &&& first.action == TaskActionView::Write
                &&& first.phase == TaskPhaseView::Done
            }
        }),
        next_task(Purpose::Store, TaskPhaseView::Done, later).action == TaskActionView::Nothing,
        next_task(Purpose::Store, TaskPhaseView::Done, later).phase == TaskPhaseView::Done,
{
}

} // verus!
