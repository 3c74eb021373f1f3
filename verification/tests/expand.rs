use cutile::expand::attribute::{entry_key_kind, validate_entry_attribute};
use cutile::expand::attribute::{EntryArgs, EntryFault, EntryMeta, EntryValue, EntryValueKind};
use cutile::expand::items::{function, has_entry_functions, implementation, kept_attributes};
use cutile::expand::items::{process_items, structure, trait_, variadic_order};
use cutile::expand::items::{Attr, ImplRoute, Item, ItemFault, ItemKind, Step};
use cutile::expand::items::{StructRoute, TraitRoute};
use cutile::expand::launcher::{dump_file_name, kernel_launcher, launcher_names, names_from};
use cutile::expand::launcher::{KernelGeneric, LauncherFault, LauncherParts};
use cutile::expand::module::{crate_root, emit_ast_self_and_registry};
use cutile::expand::module::{emit_module_ast_self_and_registry_entry, get_ast_path};
use cutile::expand::module::{get_registry_path, get_self_ast_ident, module_inner};
use cutile::expand::module::{registry_static, registry_static_ident, source_hash, to_hex};
use cutile::expand::module::EmptyModule;
use cutile::expand::source::{byte_offset_for_char_column, captured_source};
use cutile::expand::source::{line_column_to_offset, source_slice, LineColumn};

fn at(line: usize, column: usize) -> LineColumn {
    LineColumn { line, column }
}

fn text(s: &str) -> String {
    s.to_string()
}

fn attr(path: &[&str]) -> Attr {
    Attr { path: path.iter().map(|s| text(s)).collect(), method: None, trait_name: None }
}

// ── Source locations ───────────────────────────────────────────────────────

#[test]
fn columns_count_characters_and_offsets_bytes() {
    let line = "a\u{e9}\u{4e2d}\u{1f600}z";
    let offsets = [0, 1, 3, 6, 10, 11];
    for (column, offset) in offsets.into_iter().enumerate() {
        assert_eq!(byte_offset_for_char_column(line, column), Some(offset));
    }
    assert_eq!(byte_offset_for_char_column(line, 6), None);
    assert_eq!(byte_offset_for_char_column("", 0), Some(0));
}

#[test]
fn locations_resolve_to_offsets() {
    let source = "ab\n\u{e9}c\n";
    assert_eq!(line_column_to_offset(source, at(1, 0)), Some(0));
    assert_eq!(line_column_to_offset(source, at(1, 2)), Some(2));
    assert_eq!(line_column_to_offset(source, at(2, 0)), Some(3));
    assert_eq!(line_column_to_offset(source, at(2, 1)), Some(5));
    // The end of the text is the start of one more line.
    assert_eq!(line_column_to_offset(source, at(3, 0)), Some(7));
    assert_eq!(line_column_to_offset(source, at(3, 1)), None);
    assert_eq!(line_column_to_offset(source, at(4, 0)), None);
    // Lines count from one.
    assert_eq!(line_column_to_offset(source, at(0, 0)), None);
    assert_eq!(line_column_to_offset("", at(1, 0)), Some(0));
}

#[test]
fn slices_lie_between_their_locations() {
    let source = "mod m {\n  \u{e9}\n}\n";
    assert_eq!(source_slice(source, at(1, 0), at(3, 1)).unwrap(), "mod m {\n  \u{e9}\n}");
    assert_eq!(source_slice(source, at(2, 2), at(2, 3)).unwrap(), "\u{e9}");
    assert_eq!(source_slice(source, at(2, 2), at(2, 2)).unwrap(), "");
    assert_eq!(source_slice(source, at(2, 2), at(1, 0)), None);
    assert_eq!(source_slice(source, at(9, 0), at(9, 1)), None);
}

/// A location inside a slice, moved by where the slice starts, names the same
/// character of the file.
#[test]
fn locations_in_a_slice_are_those_of_the_file() {
    let source = "use x;\n  mod m {\n    fn f() {}\n}\n";
    let base = at(2, 2);
    let slice = source_slice(source, base, at(4, 1)).unwrap();
    let start = line_column_to_offset(source, base).unwrap();
    for (line, column) in [(1, 0), (1, 4), (2, 0), (2, 7), (3, 0)] {
        let inner = line_column_to_offset(&slice, at(line, column)).unwrap();
        let shift = if line == 1 { base.column } else { 0 };
        let outer = line_column_to_offset(source, at(base.line + line - 1, column + shift));
        assert_eq!(outer, Some(start + inner));
    }
}

#[test]
fn captured_text_prefers_the_span_then_the_file_then_the_tokens() {
    let (span, file, tokens) = (|| Some(text("span")), || Some(text("file")), || text("tokens"));
    assert_eq!(captured_source(span(), file(), tokens()), "span");
    assert_eq!(captured_source(None, file(), tokens()), "file");
    assert_eq!(captured_source(span(), None, tokens()), "span");
    assert_eq!(captured_source(None, None, tokens()), "tokens");
}

// ── Entry attributes ───────────────────────────────────────────────────────

fn pair(key: &str, value: EntryValue) -> EntryMeta {
    EntryMeta::NameValue { key: Some(text(key)), value }
}

fn bare(key: &str) -> EntryMeta {
    EntryMeta::Path { key: Some(text(key)) }
}

fn refused(metas: Vec<EntryMeta>) -> EntryFault {
    validate_entry_attribute(&EntryArgs::Parsed { metas }).unwrap_err()
}

#[test]
fn honored_entry_keys_are_accepted() {
    let metas = vec![
        bare("print_ir"),
        pair("print_ir", EntryValue::BoolLiteral),
        pair("dump_mlir_dir", EntryValue::StrLiteral),
        bare("unchecked_accesses"),
        pair("deny_in_kernel_checks", EntryValue::BoolLiteral),
        pair("preconditions", EntryValue::Other),
        pair("optimization_hints", EntryValue::Other),
        pair("optimization_hints", EntryValue::StrLiteral),
    ];
    assert!(validate_entry_attribute(&EntryArgs::Parsed { metas }).is_ok());
    assert!(validate_entry_attribute(&EntryArgs::Absent).is_ok());
    assert!(validate_entry_attribute(&EntryArgs::Parsed { metas: vec![] }).is_ok());
    assert_eq!(entry_key_kind("dump_mlir_dir"), Some(EntryValueKind::Str));
    assert_eq!(entry_key_kind("preconditions"), Some(EntryValueKind::Expr));
    assert_eq!(entry_key_kind("print_ir"), Some(EntryValueKind::Bool));
    assert_eq!(entry_key_kind("print-ir"), None);
}

#[test]
fn every_entry_fault_names_its_argument() {
    let cases = [
        (
            vec![bare("print_ir"), EntryMeta::List],
            EntryFault::ListArgument { index: 1 },
            "`#[cutile::entry(..)]` arguments must be `key = value` pairs or bare boolean keys",
        ),
        (
            vec![EntryMeta::Path { key: None }],
            EntryFault::KeyPath { index: 0 },
            "`#[cutile::entry(..)]` keys must be plain identifiers",
        ),
        (
            vec![EntryMeta::NameValue { key: None, value: EntryValue::BoolLiteral }],
            EntryFault::KeyPath { index: 0 },
            "`#[cutile::entry(..)]` keys must be plain identifiers",
        ),
        (
            vec![pair("print_irr", EntryValue::BoolLiteral)],
            EntryFault::UnknownKey { index: 0, key: text("print_irr") },
            "unknown `#[cutile::entry]` key `print_irr`; expected one of `print_ir`, \
             `dump_mlir_dir`, `unchecked_accesses`, `deny_in_kernel_checks`, `preconditions`, \
             `optimization_hints`",
        ),
        (
            vec![bare("dump_mlir_dir")],
            EntryFault::MissingValue { index: 0, key: text("dump_mlir_dir") },
            "`dump_mlir_dir` requires a value (`dump_mlir_dir = ...`)",
        ),
        (
            vec![pair("print_ir", EntryValue::Other)],
            EntryFault::NotBool { index: 0, key: text("print_ir") },
            "`print_ir` expects a boolean literal (`true` or `false`)",
        ),
        (
            vec![pair("dump_mlir_dir", EntryValue::BoolLiteral)],
            EntryFault::NotStr { index: 0, key: text("dump_mlir_dir") },
            "`dump_mlir_dir` expects a string literal",
        ),
    ];
    for (metas, fault, message) in cases {
        assert_eq!(fault.to_string(), message);
        assert_eq!(refused(metas), fault);
    }
    let unparsed = EntryArgs::Unparsed { message: text("expected `,`") };
    assert_eq!(
        validate_entry_attribute(&unparsed).unwrap_err().to_string(),
        "malformed `#[cutile::entry(..)]` arguments: expected `,`"
    );
}

#[test]
fn the_first_refused_argument_is_reported() {
    let metas = vec![bare("print_ir"), bare("preconditions"), EntryMeta::List];
    assert_eq!(
        refused(metas),
        EntryFault::MissingValue { index: 1, key: text("preconditions") }
    );
}

// ── Items ──────────────────────────────────────────────────────────────────

#[test]
fn items_are_routed_by_their_attributes() {
    let unchecked = || attr(&["cuda_tile", "unchecked"]);
    assert_eq!(trait_(&vec![]), TraitRoute::Verbatim);
    assert_eq!(trait_(&vec![attr(&["cuda_tile", "variadic_trait"])]), TraitRoute::Variadic);
    assert_eq!(
        trait_(&vec![attr(&["cuda_tile", "variadic_trait"]), unchecked()]),
        TraitRoute::Dropped
    );
    assert_eq!(trait_(&vec![attr(&["variadic_trait"])]), TraitRoute::Verbatim);

    let (both, inherent) =
        (attr(&["cuda_tile", "variadic_trait_impl"]), attr(&["cuda_tile", "variadic_impl"]));
    assert_eq!(implementation(&vec![inherent, both]), ImplRoute::VariadicTrait);
    assert_eq!(implementation(&vec![attr(&["cuda_tile", "variadic_impl"])]), ImplRoute::Variadic);
    assert_eq!(implementation(&vec![unchecked()]), ImplRoute::Dropped);
    assert_eq!(implementation(&vec![attr(&["allow"])]), ImplRoute::Instantiated);

    assert_eq!(structure(&vec![attr(&["cuda_tile", "variadic_struct"])]), StructRoute::Variadic);
    assert_eq!(structure(&vec![attr(&["cuda_tile", "ty"])]), StructRoute::Instantiated);
}

#[test]
fn functions_lose_the_attributes_that_only_the_expansion_reads() {
    let mut op = attr(&["cuda_tile", "variadic_op"]);
    op.method = Some(text("splat"));
    op.trait_name = Some(text("Splat"));
    let mut second = attr(&["cuda_tile", "variadic_op"]);
    second.method = Some(text("other"));
    let attrs = vec![
        attr(&["inline"]),
        op,
        attr(&["cutile", "entry"]),
        second,
        attr(&["cuda_tile", "op"]),
        attr(&["cuda_tile", "compiler_op"]),
        attr(&["doc"]),
    ];
    let route = function(&attrs, "cutile");
    assert!(route.entry && route.dispatch);
    assert_eq!(route.method.as_deref(), Some("splat"));
    assert_eq!(route.trait_name.as_deref(), Some("Splat"));
    assert_eq!(route.kept, vec![0, 6]);

    // Under another root the entry attribute stays.
    assert_eq!(function(&vec![attr(&["cutile", "entry"])], "crate").kept, vec![0]);
    let plain = function(&vec![], "cutile");
    assert!(!plain.entry && !plain.dispatch && plain.method.is_none());
}

#[test]
fn other_items_keep_their_own_attributes() {
    let attrs = vec![
        attr(&["cuda_tile", "ty"]),
        attr(&["cuda_tile", "variadic_trait"]),
        attr(&["cuda_tile", "variadic_impl"]),
        attr(&["cuda_tile", "variadic_trait_impl"]),
        attr(&["cuda_tile", "variadic_struct"]),
        attr(&["cuda_tile", "global"]),
        attr(&["derive"]),
    ];
    assert_eq!(kept_attributes(ItemKind::Trait, &attrs), vec![2, 3, 4, 5, 6]);
    assert_eq!(kept_attributes(ItemKind::Impl, &attrs), vec![1, 4, 5, 6]);
    assert_eq!(kept_attributes(ItemKind::Struct, &attrs), vec![1, 2, 3, 5, 6]);
    assert_eq!(kept_attributes(ItemKind::Static, &attrs), vec![0, 1, 2, 3, 4, 6]);
}

#[test]
fn structs_come_before_their_constructors() {
    let items = vec![("S1", Some("new1")), ("S2", None), ("S3", Some("new3"))];
    assert_eq!(variadic_order(items), (vec!["S1", "S2", "S3"], vec!["new1", "new3"]));
}

fn entry_fn() -> Item {
    Item::Fn { attrs: vec![attr(&["cutile", "entry"])] }
}

#[test]
fn items_expand_in_order_at_every_depth() {
    let items = vec![
        Item::Use,
        entry_fn(),
        Item::Mod { content: Some(vec![Item::Struct, Item::Const]) },
        Item::Fn { attrs: vec![] },
        Item::Trait,
        Item::Impl,
        Item::Type,
        Item::Macro,
        Item::Static,
    ];
    assert_eq!(
        process_items(&items, "cutile"),
        vec![
            Step::Verbatim { index: 0 },
            Step::Launcher { index: 1 },
            Step::Function { index: 1 },
            Step::Enter { index: 2 },
            Step::Structure { index: 0 },
            Step::Verbatim { index: 1 },
            Step::Leave { index: 2 },
            Step::Function { index: 3 },
            Step::Trait { index: 4 },
            Step::Implementation { index: 5 },
            Step::TypeAlias { index: 6 },
            Step::Verbatim { index: 7 },
            Step::Static { index: 8 },
        ]
    );
    assert!(has_entry_functions(&items, "cutile"));
    assert!(!has_entry_functions(&items, "crate"));
}

#[test]
fn expansions_stop_at_the_first_refused_item() {
    let nested = vec![
        Item::Mod { content: Some(vec![Item::Use, Item::Mod { content: None }, Item::Use]) },
        Item::Use,
    ];
    assert_eq!(
        process_items(&nested, "cutile"),
        vec![
            Step::Enter { index: 0 },
            Step::Verbatim { index: 0 },
            Step::Refuse { index: 1, fault: ItemFault::FileModule },
        ]
    );
    assert_eq!(
        process_items(&vec![Item::Other, Item::Use], "cutile"),
        vec![Step::Refuse { index: 0, fault: ItemFault::Unsupported }]
    );
    assert_eq!(ItemFault::Unsupported.as_str(), "Unsupported item type in module.");
    assert!(ItemFault::FileModule.as_str().contains("must have an inline body"));
}

// ── Modules ────────────────────────────────────────────────────────────────

#[test]
fn source_hashes_are_sha256_in_hexadecimal() {
    assert_eq!(
        source_hash(""),
        "e3b0c44298fc1c149afbf4c8996fb92427ae41e4649b934ca495991b7852b855"
    );
    assert_eq!(
        source_hash("abc"),
        "ba7816bf8f01cfea414140de5dae2223b00361a396177a9cb410ff61f20015ad"
    );
    assert_eq!(to_hex(&[0, 9, 10, 255, 0x5c]), "00090aff5c");
    assert_eq!(to_hex(&[]), "");
}

#[test]
fn registry_entries_are_named_in_upper_case() {
    assert_eq!(registry_static_ident("my_kernels2"), "__CUTILE_MODULE_ENTRY_MY_KERNELS2");
    assert_eq!(registry_static_ident("stra\u{df}e"), "__CUTILE_MODULE_ENTRY_STRASSE");
    assert_eq!(registry_static("M"), "__CUTILE_MODULE_ENTRY_M");
}

#[test]
fn emitted_paths_start_from_the_crate_root() {
    assert_eq!(crate_root(true), "crate");
    assert_eq!(crate_root(false), "cutile");
    assert_eq!(get_ast_path("cutile"), "cutile::cutile_compiler::ast");
    assert_eq!(get_registry_path("crate"), "crate::cutile_compiler::registry");
    assert_eq!(get_self_ast_ident(), "__module_ast_self");
}

#[test]
fn a_modules_entry_records_where_its_text_starts() {
    let entry = emit_ast_self_and_registry("m", text("mod m {}"), "src/a.rs", 3, 4, "cutile");
    assert_eq!(entry.name, "m");
    assert_eq!(entry.registry_static_ident, "__CUTILE_MODULE_ENTRY_M");
    assert_eq!(entry.ast_path, "cutile::cutile_compiler::ast");
    assert_eq!(entry.registry_path, "cutile::cutile_compiler::registry");
    assert_eq!(entry.self_ast_ident, "__module_ast_self");
    assert_eq!((entry.source_text.as_str(), entry.source_file.as_str()), ("mod m {}", "src/a.rs"));
    assert_eq!((entry.base_line, entry.base_col), (3, 4));

    let file = || Some(text("// top\nmod m { }\n"));
    let emit = |end, span, file| {
        emit_module_ast_self_and_registry_entry(
            "m", "src/a.rs", at(2, 0), end, span, file, text("mod m {}"), "cutile",
        )
    };
    let cut = emit(Some(at(2, 9)), None, file());
    assert_eq!(cut.source_text, "mod m { }");
    assert_eq!((cut.base_line, cut.base_col), (2, 0));
    assert_eq!(emit(Some(at(2, 9)), Some(text("span")), file()).source_text, "span");
    assert_eq!(emit(Some(at(9, 9)), None, file()).source_text, "mod m {}");
    assert_eq!(emit(Some(at(2, 9)), None, None).source_text, "mod m {}");
    // Without a body only the tokens are left.
    assert_eq!(emit(None, Some(text("span")), file()).source_text, "mod m {}");
}

#[test]
fn modules_are_planned_with_their_body() {
    let plan = module_inner(&Some(vec![entry_fn()]), "abc", "cutile").unwrap();
    assert_eq!(plan.ast_path, "cutile::cutile_compiler::ast");
    assert_eq!(plan.steps, vec![Step::Launcher { index: 0 }, Step::Function { index: 0 }]);
    assert!(plan.launcher_imports);
    assert_eq!(plan.source_hash, source_hash("abc"));
    let plain = module_inner(&Some(vec![Item::Use]), "", "cutile").unwrap();
    assert!(!plain.launcher_imports);
    let empty = module_inner(&None, "mod m;", "cutile").unwrap_err();
    assert_eq!(empty, EmptyModule);
    assert_eq!(empty.as_str(), "Non-empty module expected.");
}

// ── Launchers ──────────────────────────────────────────────────────────────

fn parts() -> LauncherParts {
    let texts = |items: &[&str]| items.iter().map(|s| text(s)).collect::<Vec<String>>();
    LauncherParts {
        generic_params: vec![
            KernelGeneric { declaration: text("E: ElementType"), type_ident: Some(text("E")) },
            KernelGeneric { declaration: text("const N: i32"), type_ident: None },
        ],
        generic_args: texts(&["E", "N"]),
        input_names: texts(&["I0", "I1"]),
        input_elements: texts(&["E", "i32"]),
        output_names: texts(&["O0"]),
        output_elements: texts(&["E"]),
        param_kinds: texts(&["Out<E>", "In<E>", "In<i32>", "Scalar<i32>"]),
        stored_args: text("(Stored,)"),
        plannable: true,
        is_unsafe: false,
        has_entry_attribute: true,
    }
}

#[test]
fn launchers_are_named_after_their_function() {
    let names = launcher_names("vector_add2");
    assert_eq!(names.launcher, "VectorAdd2");
    assert_eq!(names.args, "VectorAdd2Args");
    assert_eq!(names.entry, "vector_add2_entry");
    assert_eq!(names.user_impl, "__cutile_user_impl_vector_add2");
    assert_eq!(names_from("f", "Other").args, "OtherArgs");
    assert_eq!(dump_file_name("kernels", "axpy"), "kernels_axpy_launcher.rs");
}

#[test]
fn launch_modes_are_the_last_generic() {
    let l = kernel_launcher("kernels", "axpy", &EntryArgs::Absent, &parts(), "cutile").unwrap();
    let base = [
        "E: ElementType",
        "const N: i32",
        "I0: KernelInput<E>",
        "I1: KernelInput<i32>",
        "O0: KernelOutput<E>",
        "DI: DeviceOp<Output=(Stored,)>",
    ];
    let with = |items: &[&str], last: &str| {
        let mut all: Vec<String> = items.iter().map(|s| text(s)).collect();
        all.push(text(last));
        all
    };
    assert_eq!(l.standard_params, base);
    assert_eq!(
        l.struct_def_params,
        with(
            &base,
            "_Mode: cutile::tile_kernel::LaunchMode = cutile::tile_kernel::StandardLaunch"
        )
    );
    assert_eq!(l.struct_params, with(&base, "_Mode: cutile::tile_kernel::LaunchMode"));
    let args = ["E", "N", "I0", "I1", "O0", "DI"];
    assert_eq!(l.standard_args, with(&args, "cutile::tile_kernel::StandardLaunch"));
    assert_eq!(l.pdl_args, with(&args, "cutile::tile_kernel::ProgrammaticDependentLaunch"));
    assert_eq!(l.struct_args, with(&args, "_Mode"));
    assert_eq!(l.phantom_types, ["I0", "I1", "O0", "E"]);
    assert_eq!(l.params, ["Out<E>", "In<E>", "In<i32>", "Scalar<i32>"]);
    assert_eq!(l.names.launcher, "Axpy");
    assert_eq!(l.dump_file, "kernels_axpy_launcher.rs");
}

#[test]
fn plans_are_offered_as_the_entry_point_allows() {
    for (plannable, is_unsafe, safe, unchecked) in [
        (true, false, true, true),
        (true, true, false, true),
        (false, false, false, false),
        (false, true, false, false),
    ] {
        let parts = LauncherParts { plannable, is_unsafe, ..parts() };
        let l = kernel_launcher("m", "f", &EntryArgs::Absent, &parts, "cutile").unwrap();
        assert_eq!((l.safe_plans, l.unchecked_plans), (safe, unchecked));
    }
}

#[test]
fn launchers_need_an_accepted_entry_attribute() {
    let unknown = EntryArgs::Parsed { metas: vec![bare("fast")] };
    let fault = kernel_launcher("m", "f", &unknown, &parts(), "cutile").unwrap_err();
    assert_eq!(
        fault,
        LauncherFault::Attribute(EntryFault::UnknownKey { index: 0, key: text("fast") })
    );
    assert!(fault.to_string().starts_with("unknown `#[cutile::entry]` key `fast`"));
    let bare_fn = LauncherParts { has_entry_attribute: false, ..parts() };
    let fault = kernel_launcher("m", "f", &EntryArgs::Absent, &bare_fn, "cutile").unwrap_err();
    assert_eq!(fault, LauncherFault::MissingEntry { function: text("f") });
    assert_eq!(fault.to_string(), "Unexpected entry point f: Missing entry annotation.");
}
