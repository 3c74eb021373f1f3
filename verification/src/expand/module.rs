//! The shell of an expanded module: the paths and names that its emitted items
//! use, its source hash, and its registry entry.
use sha2::{Digest, Sha256};
use vstd::prelude::*;

use crate::expand::items;
use crate::expand::items::{Item, Step};
use crate::expand::source;
use crate::expand::source::LineColumn;
use crate::text;

verus! {

/// The digest that SHA-256 gives for a sequence of bytes.
pub uninterp spec fn sha256_of(bytes: Seq<u8>) -> Seq<u8>;

/// `sha2::Sha256::digest`: the SHA-256 digest of `bytes`, which is 32 bytes long.
/// Nothing more is said of the digest than that it is a function of the bytes.
#[verifier::external_body]
fn sha256(bytes: &[u8]) -> (r: Vec<u8>)
    ensures
        r@ == sha256_of(bytes@),
        r@.len() == 32,
{
    Sha256::digest(bytes).to_vec()
}

/// The upper-case form of a text.
pub uninterp spec fn uppercase_of(s: Seq<char>) -> Seq<char>;

/// The upper-case form of an ASCII character.
pub open spec fn ascii_upper(c: char) -> char {
    if 'a' <= c <= 'z' {
        (c as u32 - 32) as char
    } else {
        c
    }
}

/// `str::to_uppercase`: the Unicode upper-case form of a text. A text of ASCII
/// characters alone has each of `a` to `z` replaced by its capital.
#[verifier::external_body]
fn to_uppercase(s: &str) -> (r: String)
    ensures
        r@ == uppercase_of(s@),
        vstd::utf8::is_ascii_chars(s@) ==> r@ == s@.map_values(|c: char| ascii_upper(c)),
{
    s.to_uppercase()
}

/// One lower-case hexadecimal digit.
pub open spec fn hex_digit(d: int) -> char {
    if d < 10 {
        (48 + d) as char
    } else {
        (87 + d) as char
    }
}

/// The lower-case hexadecimal text of bytes, two digits each.
pub open spec fn hex_text(bytes: Seq<u8>) -> Seq<char>
    decreases bytes.len(),
{
    if bytes.len() == 0 {
        Seq::empty()
    } else {
        hex_text(bytes.drop_last()).push(hex_digit(bytes.last() as int / 16)).push(
            hex_digit(bytes.last() as int % 16),
        )
    }
}

fn hex_digit_str(d: u8) -> (r: &'static str)
    requires
        d < 16,
    ensures
        r@ == seq![hex_digit(d as int)],
{
    proof {
        reveal_strlit("0");
        reveal_strlit("1");
        reveal_strlit("2");
        reveal_strlit("3");
        reveal_strlit("4");
        reveal_strlit("5");
        reveal_strlit("6");
        reveal_strlit("7");
        reveal_strlit("8");
        reveal_strlit("9");
        reveal_strlit("a");
        reveal_strlit("b");
        reveal_strlit("c");
        reveal_strlit("d");
        reveal_strlit("e");
        reveal_strlit("f");
    }
    let r = match d {
        0 => "0",
        1 => "1",
        2 => "2",
        3 => "3",
        4 => "4",
        5 => "5",
        6 => "6",
        7 => "7",
        8 => "8",
        9 => "9",
        10 => "a",
        11 => "b",
        12 => "c",
        13 => "d",
        14 => "e",
        _ => "f",
    };
    assert(r@ =~= seq![hex_digit(d as int)]);
    r
}

/// The lower-case hexadecimal text of bytes.
pub fn to_hex(bytes: &[u8]) -> (r: String)
    ensures
        r@ == hex_text(bytes@),
{
    let mut out = String::new();
    let mut i: usize = 0;
    while i < bytes.len()
        invariant
            i <= bytes.len(),
            out@ == hex_text(bytes@.take(i as int)),
        decreases bytes.len() - i,
    {
        let b = bytes[i];
        let ghost before = out@;
        out.append(hex_digit_str(b / 16));
        out.append(hex_digit_str(b % 16));
        proof {
            assert(bytes@.take(i + 1).drop_last() =~= bytes@.take(i as int));
            assert(out@ =~= before.push(hex_digit(b as int / 16)).push(hex_digit(b as int % 16)));
        }
        i += 1;
    }
    assert(bytes@.take(i as int) =~= bytes@);
    out
}

/// The hash of a module's source: the hexadecimal SHA-256 digest of its text.
pub fn source_hash(source: &str) -> (r: String)
    ensures
        r@ == hex_text(sha256_of(vstd::utf8::encode_utf8(source@))),
        r@.len() == 64,
{
    let digest = sha256(source.as_bytes());
    proof {
        hex_text_length(digest@);
    }
    to_hex(digest.as_slice())
}

/// Hexadecimal text has two digits per byte.
pub proof fn hex_text_length(bytes: Seq<u8>)
    ensures
        hex_text(bytes).len() == 2 * bytes.len(),
    decreases bytes.len(),
{
    if bytes.len() > 0 {
        hex_text_length(bytes.drop_last());
    }
}

/// The crate that emitted paths start from.
pub fn crate_root(tile_rust_crate: bool) -> (r: &'static str)
    ensures
        r@ == (if tile_rust_crate {
            "crate"@
        } else {
            "cutile"@
        }),
{
    if tile_rust_crate {
        "crate"
    } else {
        "cutile"
    }
}

/// The path of the AST module.
pub fn get_ast_path(root: &str) -> (r: String)
    ensures
        r@ == root@ + "::cutile_compiler::ast"@,
{
    text::join2(root, "::cutile_compiler::ast")
}

/// The path of the linker-registry module.
pub fn get_registry_path(root: &str) -> (r: String)
    ensures
        r@ == root@ + "::cutile_compiler::registry"@,
{
    text::join2(root, "::cutile_compiler::registry")
}

/// The name of a module's own AST builder.
pub fn get_self_ast_ident() -> (r: &'static str)
    ensures
        r@ == "__module_ast_self"@,
{
    "__module_ast_self"
}

/// The name of a registry entry, from the upper-case form of the module's name.
pub fn registry_static(upper_name: &str) -> (r: String)
    ensures
        r@ == "__CUTILE_MODULE_ENTRY_"@ + upper_name@,
{
    text::join2("__CUTILE_MODULE_ENTRY_", upper_name)
}

/// The name of a module's registry entry: its own name in upper case, which for
/// an ASCII name is each letter's capital.
pub fn registry_static_ident(name: &str) -> (r: String)
    ensures
        r@ == "__CUTILE_MODULE_ENTRY_"@ + uppercase_of(name@),
        vstd::utf8::is_ascii_chars(name@) ==> r@ == "__CUTILE_MODULE_ENTRY_"@
            + name@.map_values(|c: char| ascii_upper(c)),
{
    let upper = to_uppercase(name);
    registry_static(upper.as_str())
}

/// What a module's AST builder and registry entry are emitted from.
#[derive(Debug)]
pub struct AstEntry {
    pub name: String,
    pub ast_path: String,
    pub registry_path: String,
    pub self_ast_ident: &'static str,
    pub registry_static_ident: String,
    /// The text that the builder parses again.
    pub source_text: String,
    pub source_file: String,
    /// Where the text starts in its file.
    pub base_line: usize,
    pub base_col: usize,
}

/// The AST builder and registry entry of a source text that starts at a place in
/// a file.
pub fn emit_ast_self_and_registry(
    name: &str,
    source_text: String,
    source_file: &str,
    base_line: usize,
    base_col: usize,
    root: &str,
) -> (r: AstEntry)
    ensures
        r.name@ == name@,
        r.ast_path@ == root@ + "::cutile_compiler::ast"@,
        r.registry_path@ == root@ + "::cutile_compiler::registry"@,
        r.self_ast_ident@ == "__module_ast_self"@,
        r.registry_static_ident@ == "__CUTILE_MODULE_ENTRY_"@ + uppercase_of(name@),
        r.source_text == source_text,
        r.source_file@ == source_file@,
        r.base_line == base_line,
        r.base_col == base_col,
{
    AstEntry {
        name: name.to_owned(),
        ast_path: get_ast_path(root),
        registry_path: get_registry_path(root),
        self_ast_ident: get_self_ast_ident(),
        registry_static_ident: registry_static_ident(name),
        source_text,
        source_file: source_file.to_owned(),
        base_line,
        base_col,
    }
}

/// The text of the file between two locations, where the file could be read.
pub open spec fn slice_of(
    file_text: Option<String>,
    start: LineColumn,
    end: LineColumn,
) -> Option<Seq<char>> {
    match file_text {
        Some(t) => match (source::char_index(t@, start), source::char_index(t@, end)) {
            (Some(a), Some(b)) => if a <= b {
                Some(t@.subrange(a, b))
            } else {
                None
            },
            _ => None,
        },
        None => None,
    }
}

/// The AST builder and registry entry of a module that starts at `start`. Its
/// text is that of its span, else the slice of its file up to `end`, else its
/// tokens; a module without a body has only its tokens.
pub fn emit_module_ast_self_and_registry_entry(
    name: &str,
    source_file: &str,
    start: LineColumn,
    end: Option<LineColumn>,
    span_text: Option<String>,
    file_text: Option<String>,
    tokens: String,
    root: &str,
) -> (r: AstEntry)
    ensures
        r.name@ == name@,
        r.ast_path@ == root@ + "::cutile_compiler::ast"@,
        r.registry_path@ == root@ + "::cutile_compiler::registry"@,
        r.self_ast_ident@ == "__module_ast_self"@,
        r.registry_static_ident@ == "__CUTILE_MODULE_ENTRY_"@ + uppercase_of(name@),
        r.source_file@ == source_file@,
        r.base_line == start.line,
        r.base_col == start.column,
        r.source_text@ == (match end {
            Some(e) => match (span_text, slice_of(file_text, start, e)) {
                (Some(t), _) => t@,
                (None, Some(t)) => t,
                (None, None) => tokens@,
            },
            None => tokens@,
        }),
{
    let source_text = match end {
        Some(e) => {
            let file_slice = match &file_text {
                Some(t) => source::source_slice(t.as_str(), start, e),
                None => None,
            };
            source::captured_source(span_text, file_slice, tokens)
        },
        None => tokens,
    };
    emit_ast_self_and_registry(name, source_text, source_file, start.line, start.column, root)
}

/// What a module is emitted from.
#[derive(Debug)]
pub struct ModulePlan {
    pub ast_path: String,
    /// The steps that expand the module's items.
    pub steps: Vec<Step>,
    /// Whether the module imports what launchers need: only one with an entry
    /// point of its own does. Any other allows what kernel helpers leave unused
    /// and their naming.
    pub launcher_imports: bool,
    pub source_hash: String,
}

/// A module is expanded only with a body.
#[derive(Debug, Clone, Copy, PartialEq, Eq, Structural)]
pub struct EmptyModule;

impl EmptyModule {
    /// The text the refusal is reported with.
    pub fn as_str(self) -> (r: &'static str)
        ensures
            r@ == "Non-empty module expected."@,
    {
        "Non-empty module expected."
    }
}

/// Plans the expansion of a module whose tokens read `tokens`.
pub fn module_inner(content: &Option<Vec<Item>>, tokens: &str, root: &str) -> (r: Result<
    ModulePlan,
    EmptyModule,
>)
    ensures
        match content {
            None => r is Err,
            Some(list) => r matches Ok(plan) && plan.ast_path@ == root@ + "::cutile_compiler::ast"@
                && plan.steps@ == items::walk(list@, list@.len() as int, root@)
                && plan.launcher_imports == items::has_entries(list@, root@) && plan.source_hash@
                == hex_text(sha256_of(vstd::utf8::encode_utf8(tokens@))),
        },
{
    match content {
        None => Err(EmptyModule),
        Some(list) => Ok(
            ModulePlan {
                ast_path: get_ast_path(root),
                steps: items::process_items(list, root),
                launcher_imports: items::has_entry_functions(list, root),
                source_hash: source_hash(tokens),
            },
        ),
    }
}

/// A byte is written as two hexadecimal digits, the high half first: `0` to `9`, then
/// `a` to `f`.
pub proof fn bytes_are_written_high_half_first(bytes: Seq<u8>, i: int)
    requires
        0 <= i < bytes.len(),
    ensures
        hex_text(bytes).len() == 2 * bytes.len(),
        hex_text(bytes)[2 * i] as int == if bytes[i] / 16 < 10 {
            0x30 + bytes[i] / 16
        } else {
            0x61 + bytes[i] / 16 - 10
        },
        hex_text(bytes)[2 * i + 1] as int == if bytes[i] % 16 < 10 {
            0x30 + bytes[i] % 16
        } else {
            0x61 + bytes[i] % 16 - 10
        },
    decreases bytes.len(),
{
    hex_text_length(bytes);
    let front = bytes.drop_last();
    hex_text_length(front);
    if i < front.len() {
        bytes_are_written_high_half_first(front, i);
        assert(front[i] == bytes[i]);
        assert(hex_text(bytes)[2 * i] == hex_text(front)[2 * i]);
        assert(hex_text(bytes)[2 * i + 1] == hex_text(front)[2 * i + 1]);
    }
}

/// The text of a file between two locations is that from the character at the first up
/// to the one at the second, where both are found in this order.
pub proof fn a_files_slice_lies_between_its_locations(
    file_text: Option<String>,
    start: LineColumn,
    end: LineColumn,
)
    ensures
        slice_of(file_text, start, end) is Some <==> file_text is Some && source::char_index(
            file_text->Some_0@,
            start,
        ) is Some && source::char_index(file_text->Some_0@, end) is Some && source::char_index(
            file_text->Some_0@,
            start,
        )->Some_0 <= source::char_index(file_text->Some_0@, end)->Some_0,
        slice_of(file_text, start, end) matches Some(t) ==> t == file_text->Some_0@.subrange(
            source::char_index(file_text->Some_0@, start)->Some_0,
            source::char_index(file_text->Some_0@, end)->Some_0,
        ),
{
}

/// The capital of an ASCII letter stands 32 before it; nothing else changes.
pub proof fn capitals_stand_before_their_letters(c: char)
    ensures
        'a' <= c <= 'z' ==> ascii_upper(c) as int == c as int - 32,
        !('a' <= c <= 'z') ==> ascii_upper(c) == c,
{
}

} // verus!
