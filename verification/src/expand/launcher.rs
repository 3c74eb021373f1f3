//! The launcher of an entry point: its names, its generics, and the plan methods
//! it offers.
use convert_case::{Case, Casing};
use vstd::prelude::*;

use crate::expand::attribute::{validate_entry_attribute, EntryArgs, EntryFault};
use crate::text;

verus! {

/// The upper camel case form of a name.
pub uninterp spec fn upper_camel_of(name: Seq<char>) -> Seq<char>;

/// `convert_case::Casing::to_case` with `Case::UpperCamel`: the upper camel case
/// form of a name. Nothing more is said of it than that it is a function of the
/// name.
#[verifier::external_body]
fn to_upper_camel(name: &str) -> (r: String)
    ensures
        r@ == upper_camel_of(name@),
{
    name.to_case(Case::UpperCamel)
}

/// The names that an entry point gives rise to.
#[derive(Debug)]
pub struct LauncherNames {
    /// The launcher struct.
    pub launcher: String,
    /// The launcher's argument type.
    pub args: String,
    /// The function in the compiled module.
    pub entry: String,
    /// The function that holds the kernel's body.
    pub user_impl: String,
}

/// The names of an entry point whose upper camel case form is `camel`.
pub fn names_from(function: &str, camel: &str) -> (r: LauncherNames)
    ensures
        r.launcher@ == camel@,
        r.args@ == camel@ + "Args"@,
        r.entry@ == function@ + "_entry"@,
        r.user_impl@ == "__cutile_user_impl_"@ + function@,
{
    LauncherNames {
        launcher: camel.to_owned(),
        args: text::join2(camel, "Args"),
        entry: text::join2(function, "_entry"),
        user_impl: text::join2("__cutile_user_impl_", function),
    }
}

/// The names of an entry point.
pub fn launcher_names(function: &str) -> (r: LauncherNames)
    ensures
        named(r, function@),
{
    let camel = to_upper_camel(function);
    names_from(function, camel.as_str())
}

/// The file that a launcher is dumped to.
pub fn dump_file_name(module: &str, function: &str) -> (r: String)
    ensures
        r@ == module@ + "_"@ + function@ + "_launcher.rs"@,
{
    text::join4(module, "_", function, "_launcher.rs")
}

/// A generic parameter of a kernel: its declaration, and its name where it is a
/// type parameter.
#[derive(Debug)]
pub struct KernelGeneric {
    pub declaration: String,
    pub type_ident: Option<String>,
}

/// What a launcher is built from: the kernel's generics, the type parameters and
/// element types of its tensor inputs and outputs, and its parameter kinds.
#[derive(Debug)]
pub struct LauncherParts {
    pub generic_params: Vec<KernelGeneric>,
    pub generic_args: Vec<String>,
    pub input_names: Vec<String>,
    pub input_elements: Vec<String>,
    pub output_names: Vec<String>,
    pub output_elements: Vec<String>,
    /// The kind of each parameter as plans see it, in order.
    pub param_kinds: Vec<String>,
    /// The type of the arguments that the launcher stores.
    pub stored_args: String,
    /// Whether launch plans can record every parameter.
    pub plannable: bool,
    /// Whether the entry point is `unsafe`.
    pub is_unsafe: bool,
    /// Whether the function carries an entry attribute.
    pub has_entry_attribute: bool,
}

/// The names, generics and plan methods of a launcher.
#[derive(Debug)]
pub struct Launcher {
    pub names: LauncherNames,
    /// The file that the launcher is dumped to on request.
    pub dump_file: String,
    /// Parameters of what only a standard launch has.
    pub standard_params: Vec<String>,
    /// Parameters of the struct, whose launch mode has a default.
    pub struct_def_params: Vec<String>,
    /// Parameters of what every launch mode has.
    pub struct_params: Vec<String>,
    pub standard_args: Vec<String>,
    pub pdl_args: Vec<String>,
    pub struct_args: Vec<String>,
    /// Types that no field names.
    pub phantom_types: Vec<String>,
    /// The members of the tuple type `Params` of the entry point's marker: the
    /// kind of each parameter, in order.
    pub params: Vec<String>,
    /// Offers plans that launch safely, and can fill a plan cache.
    pub safe_plans: bool,
    /// Offers plans that launch only unchecked.
    pub unchecked_plans: bool,
}

/// The declarations of generic parameters.
pub open spec fn declarations(params: Seq<KernelGeneric>) -> Seq<Seq<char>> {
    params.map_values(|g: KernelGeneric| g.declaration@)
}

/// The names of the type parameters among the first `n`, in order.
pub open spec fn type_idents(params: Seq<KernelGeneric>, n: int) -> Seq<Seq<char>>
    decreases n,
{
    if n <= 0 {
        Seq::empty()
    } else {
        match params[n - 1].type_ident {
            Some(name) => type_idents(params, n - 1).push(name@),
            None => type_idents(params, n - 1),
        }
    }
}

/// Parameters bounded by a trait over an element type: `name: bound<element>`.
pub open spec fn bounded(
    names: Seq<Seq<char>>,
    bound: Seq<char>,
    elements: Seq<Seq<char>>,
) -> Seq<Seq<char>> {
    Seq::new(names.len(), |i: int| names[i] + bound + elements[i] + ">"@)
}

/// The parameters without a launch mode: the kernel's, one per input and output,
/// and the input operation.
pub open spec fn base_params(parts: LauncherParts) -> Seq<Seq<char>> {
    (declarations(parts.generic_params@) + bounded(
        text::texts(parts.input_names@),
        ": KernelInput<"@,
        text::texts(parts.input_elements@),
    ) + bounded(
        text::texts(parts.output_names@),
        ": KernelOutput<"@,
        text::texts(parts.output_elements@),
    )).push("DI: DeviceOp<Output="@ + parts.stored_args@ + ">"@)
}

/// The arguments without a launch mode.
pub open spec fn base_args(parts: LauncherParts) -> Seq<Seq<char>> {
    (text::texts(parts.generic_args@) + text::texts(parts.input_names@) + text::texts(
        parts.output_names@,
    )).push("DI"@)
}

/// The types that the launcher only names.
pub open spec fn phantoms(parts: LauncherParts) -> Seq<Seq<char>> {
    text::texts(parts.input_names@) + text::texts(parts.output_names@) + type_idents(
        parts.generic_params@,
        parts.generic_params@.len() as int,
    )
}

/// Appends `name: bound<element>` for each name.
fn push_bounded(
    out: &mut Vec<String>,
    names: &Vec<String>,
    bound: &str,
    elements: &Vec<String>,
)
    requires
        names@.len() <= elements@.len(),
    ensures
        text::texts(final(out)@) == text::texts(old(out)@) + bounded(
            text::texts(names@),
            bound@,
            text::texts(elements@),
        ),
{
    let ghost base = text::texts(out@);
    let ghost all = bounded(text::texts(names@), bound@, text::texts(elements@));
    let mut i: usize = 0;
    while i < names.len()
        invariant
            i <= names@.len() <= elements@.len(),
            all == bounded(text::texts(names@), bound@, text::texts(elements@)),
            text::texts(out@) == base + all.take(i as int),
        decreases names.len() - i,
    {
        let param = text::join4(names[i].as_str(), bound, elements[i].as_str(), ">");
        assert(param@ == all[i as int]);
        text::push_text(out, param);
        assert(text::texts(out@) =~= base + all.take(i + 1));
        i += 1;
    }
    assert(all.take(i as int) =~= all);
}

/// The parameters without a launch mode.
fn build_base_params(parts: &LauncherParts) -> (r: Vec<String>)
    requires
        parts.input_names@.len() <= parts.input_elements@.len(),
        parts.output_names@.len() <= parts.output_elements@.len(),
    ensures
        text::texts(r@) == base_params(*parts),
{
    let mut out: Vec<String> = Vec::new();
    let mut i: usize = 0;
    while i < parts.generic_params.len()
        invariant
            i <= parts.generic_params@.len(),
            text::texts(out@) == declarations(parts.generic_params@).take(i as int),
        decreases parts.generic_params.len() - i,
    {
        let declaration = parts.generic_params[i].declaration.clone();
        text::push_text(&mut out, declaration);
        assert(declarations(parts.generic_params@).take(i + 1) =~= declarations(
            parts.generic_params@,
        ).take(i as int).push(declaration@));
        i += 1;
    }
    assert(declarations(parts.generic_params@).take(i as int) =~= declarations(
        parts.generic_params@,
    ));
    push_bounded(&mut out, &parts.input_names, ": KernelInput<", &parts.input_elements);
    push_bounded(&mut out, &parts.output_names, ": KernelOutput<", &parts.output_elements);
    let mut operation = text::join2("DI: DeviceOp<Output=", parts.stored_args.as_str());
    operation.append(">");
    text::push_text(&mut out, operation);
    out
}

/// The arguments without a launch mode.
fn build_base_args(parts: &LauncherParts) -> (r: Vec<String>)
    ensures
        text::texts(r@) == base_args(*parts),
{
    let mut out: Vec<String> = Vec::new();
    text::push_texts(&mut out, &parts.generic_args);
    text::push_texts(&mut out, &parts.input_names);
    text::push_texts(&mut out, &parts.output_names);
    text::push_text(&mut out, "DI".to_owned());
    assert(text::texts(out@) =~= base_args(*parts));
    out
}

/// The types that the launcher only names.
fn build_phantoms(parts: &LauncherParts) -> (r: Vec<String>)
    ensures
        text::texts(r@) == phantoms(*parts),
{
    let mut out: Vec<String> = Vec::new();
    text::push_texts(&mut out, &parts.input_names);
    text::push_texts(&mut out, &parts.output_names);
    let ghost base = text::texts(out@);
    assert(base =~= text::texts(parts.input_names@) + text::texts(parts.output_names@));
    let mut i: usize = 0;
    while i < parts.generic_params.len()
        invariant
            i <= parts.generic_params@.len(),
            text::texts(out@) == base + type_idents(parts.generic_params@, i as int),
        decreases parts.generic_params.len() - i,
    {
        match &parts.generic_params[i].type_ident {
            Some(name) => {
                let name = name.clone();
                text::push_text(&mut out, name);
                assert(text::texts(out@) =~= base + type_idents(parts.generic_params@, i + 1));
            },
            None => {},
        }
        i += 1;
    }
    out
}

/// A list with one more text.
fn with_last(items: &Vec<String>, last: String) -> (r: Vec<String>)
    ensures
        text::texts(r@) == text::texts(items@).push(last@),
{
    let mut out: Vec<String> = Vec::new();
    text::push_texts(&mut out, items);
    text::push_text(&mut out, last);
    assert(text::texts(out@) =~= text::texts(items@).push(last@));
    out
}

/// Why a function gets no launcher.
#[derive(Debug, PartialEq, Eq)]
pub enum LauncherFault {
    /// The entry attribute is refused.
    Attribute(EntryFault),
    /// The function has no entry attribute.
    MissingEntry { function: String },
}

impl LauncherFault {
    /// The text the fault is reported with.
    pub open spec fn text(self) -> Seq<char> {
        match self {
            LauncherFault::Attribute(fault) => fault.text(),
            LauncherFault::MissingEntry { function } => "Unexpected entry point "@ + function@
                + ": Missing entry annotation."@,
        }
    }

    /// The text the fault is reported with.
    pub fn to_string(&self) -> (r: String)
        ensures
            r@ == self.text(),
    {
        match self {
            LauncherFault::Attribute(fault) => fault.to_string(),
            LauncherFault::MissingEntry { function } => {
                let mut out = text::join2("Unexpected entry point ", function.as_str());
                out.append(": Missing entry annotation.");
                out
            },
        }
    }
}

/// The names of the launcher of `function`.
pub open spec fn named(names: LauncherNames, function: Seq<char>) -> bool {
    &&& names.launcher@ == upper_camel_of(function)
    &&& names.args@ == upper_camel_of(function) + "Args"@
    &&& names.entry@ == function + "_entry"@
    &&& names.user_impl@ == "__cutile_user_impl_"@ + function
}

/// The launcher is laid out from `parts`, in a module under `root`.
pub open spec fn laid_out(l: Launcher, parts: LauncherParts, root: Seq<char>) -> bool {
    &&& text::texts(l.standard_params@) == base_params(parts)
    &&& text::texts(l.struct_def_params@) == base_params(parts).push(
        "_Mode: "@ + root + "::tile_kernel::LaunchMode = "@ + (root
            + "::tile_kernel::StandardLaunch"@),
    )
    &&& text::texts(l.struct_params@) == base_params(parts).push(
        "_Mode: "@ + root + "::tile_kernel::LaunchMode"@,
    )
    &&& text::texts(l.standard_args@) == base_args(parts).push(
        root + "::tile_kernel::StandardLaunch"@,
    )
    &&& text::texts(l.pdl_args@) == base_args(parts).push(
        root + "::tile_kernel::ProgrammaticDependentLaunch"@,
    )
    &&& text::texts(l.struct_args@) == base_args(parts).push("_Mode"@)
    &&& text::texts(l.phantom_types@) == phantoms(parts)
    &&& text::texts(l.params@) == text::texts(parts.param_kinds@)
    &&& l.safe_plans == (!parts.is_unsafe && parts.plannable)
    &&& l.unchecked_plans == parts.plannable
}

/// Lays out the launcher of an entry point in a module under `root`, once its
/// attribute is accepted. The launch mode is the last generic. Safe plans are
/// offered only for a safe entry point whose parameters plans can record,
/// unchecked plans wherever plans can record them.
pub fn kernel_launcher(
    module: &str,
    function: &str,
    attribute: &EntryArgs,
    parts: &LauncherParts,
    root: &str,
) -> (r: Result<Launcher, LauncherFault>)
    requires
        parts.input_names@.len() <= parts.input_elements@.len(),
        parts.output_names@.len() <= parts.output_elements@.len(),
    ensures
        match r {
            Ok(l) => {
                &&& attribute.accepted()
                &&& parts.has_entry_attribute
                &&& named(l.names, function@)
                &&& l.dump_file@ == module@ + "_"@ + function@ + "_launcher.rs"@
                &&& laid_out(l, *parts, root@)
            },
            Err(LauncherFault::Attribute(fault)) => attribute.refused(fault),
            Err(LauncherFault::MissingEntry { function: f }) => attribute.accepted()
                && !parts.has_entry_attribute && f@ == function@,
        },
{
    match validate_entry_attribute(attribute) {
        Ok(()) => {},
        Err(fault) => {
            return Err(LauncherFault::Attribute(fault));
        },
    }
    let names = launcher_names(function);
    let standard_launch = text::join2(root, "::tile_kernel::StandardLaunch");
    let pdl_launch = text::join2(root, "::tile_kernel::ProgrammaticDependentLaunch");
    let params = build_base_params(parts);
    let args = build_base_args(parts);
    let mut mode = text::join2("_Mode: ", root);
    mode.append("::tile_kernel::LaunchMode");
    let mut default_mode = text::join2("_Mode: ", root);
    default_mode.append("::tile_kernel::LaunchMode = ");
    default_mode.append(standard_launch.as_str());
    let struct_def_params = with_last(&params, default_mode);
    let struct_params = with_last(&params, mode);
    let standard_args = with_last(&args, standard_launch);
    let pdl_args = with_last(&args, pdl_launch);
    let struct_args = with_last(&args, "_Mode".to_owned());
    let phantom_types = build_phantoms(parts);
    let mut kinds: Vec<String> = Vec::new();
    text::push_texts(&mut kinds, &parts.param_kinds);
    assert(text::texts(kinds@) =~= text::texts(parts.param_kinds@));
    if !parts.has_entry_attribute {
        return Err(LauncherFault::MissingEntry { function: function.to_owned() });
    }
    Ok(
        Launcher {
            names,
            dump_file: dump_file_name(module, function),
            standard_params: params,
            struct_def_params,
            struct_params,
            standard_args,
            pdl_args,
            struct_args,
            phantom_types,
            params: kinds,
            safe_plans: !parts.is_unsafe && parts.plannable,
            unchecked_plans: parts.plannable,
        },
    )
}

/// The parameters of a launcher are the kernel's own, then one per input and one per
/// output, bounded by its element type, then the operation that yields the stored
/// arguments.
pub proof fn parameters_come_in_order(parts: LauncherParts)
    ensures
        ({
            let all = base_params(parts);
            let g = parts.generic_params@.len();
            let n = parts.input_names@.len();
            let m = parts.output_names@.len();
            &&& all.len() == g + n + m + 1
            &&& forall|i: int|
                0 <= i < g ==> #[trigger] all[i] == parts.generic_params@[i].declaration@
            &&& forall|i: int|
                0 <= i < n ==> (#[trigger] parts.input_names@[i])@ + ": KernelInput<"@
                    + text::texts(parts.input_elements@)[i] + ">"@ == all[g + i]
            &&& forall|i: int|
                0 <= i < m ==> (#[trigger] parts.output_names@[i])@ + ": KernelOutput<"@
                    + text::texts(parts.output_elements@)[i] + ">"@ == all[g + n + i]
            &&& all[(g + n + m) as int] == "DI: DeviceOp<Output="@ + parts.stored_args@ + ">"@
        }),
{
    let g = parts.generic_params@.len();
    let n = parts.input_names@.len();
    let m = parts.output_names@.len();
    let all = base_params(parts);
    let (a, b, c) = (
        declarations(parts.generic_params@),
        bounded(
            text::texts(parts.input_names@),
            ": KernelInput<"@,
            text::texts(parts.input_elements@),
        ),
        bounded(
            text::texts(parts.output_names@),
            ": KernelOutput<"@,
            text::texts(parts.output_elements@),
        ),
    );
    assert forall|i: int| 0 <= i < n implies (#[trigger] parts.input_names@[i])@
        + ": KernelInput<"@ + text::texts(parts.input_elements@)[i] + ">"@ == all[g + i] by {
        assert(all[g + i] == b[i]);
    }
    assert forall|i: int| 0 <= i < m implies (#[trigger] parts.output_names@[i])@
        + ": KernelOutput<"@ + text::texts(parts.output_elements@)[i] + ">"@ == all[g + n + i] by {
        assert(all[g + n + i] == c[i]);
    }
}

/// The generic arguments of a launcher are the kernel's, then its inputs and outputs,
/// then the operation.
pub proof fn generic_arguments_come_in_order(parts: LauncherParts)
    ensures
        ({
            let all = base_args(parts);
            let g = parts.generic_args@.len();
            let n = parts.input_names@.len();
            let m = parts.output_names@.len();
            &&& all.len() == g + n + m + 1
            &&& forall|i: int| 0 <= i < g ==> (#[trigger] parts.generic_args@[i])@ == all[i]
            &&& forall|i: int| 0 <= i < n ==> (#[trigger] parts.input_names@[i])@ == all[g + i]
            &&& forall|i: int| 0 <= i < m ==> (#[trigger] parts.output_names@[i])@ == all[g + n + i]
            &&& all[(g + n + m) as int] == "DI"@
        }),
{
}

/// A launcher names its inputs and outputs, then the kernel's type parameters in order,
/// leaving out parameters that are no types.
pub proof fn phantom_types_come_in_order(parts: LauncherParts, kept: Seq<int>)
    requires
        forall|a: int, b: int| 0 <= a < b < kept.len() ==> #[trigger] kept[a] < #[trigger] kept[b],
        forall|a: int|
            0 <= a < kept.len() ==> 0 <= #[trigger] kept[a] < parts.generic_params@.len()
                && parts.generic_params@[kept[a]].type_ident is Some,
        forall|i: int|
            0 <= i < parts.generic_params@.len() && (
            #[trigger] parts.generic_params@[i]).type_ident is Some ==> kept.contains(i),
    ensures
        ({
            let all = phantoms(parts);
            let n = parts.input_names@.len();
            let m = parts.output_names@.len();
            &&& all.len() == n + m + kept.len()
            &&& forall|i: int| 0 <= i < n ==> (#[trigger] parts.input_names@[i])@ == all[i]
            &&& forall|i: int| 0 <= i < m ==> (#[trigger] parts.output_names@[i])@ == all[n + i]
            &&& forall|a: int|
                0 <= a < kept.len() ==> parts.generic_params@[#[trigger] kept[a]].type_ident->0@
                    == all[n + m + a]
        }),
{
    let params = parts.generic_params@;
    lemma_kept_types(params, kept, params.len() as int, kept.len() as int);
    let n = parts.input_names@.len();
    let m = parts.output_names@.len();
    let all = phantoms(parts);
    let types = type_idents(params, params.len() as int);
    assert forall|a: int| 0 <= a < kept.len() implies params[#[trigger] kept[a]].type_ident->0@
        == all[n + m + a] by {
        assert(all[n + m + a] == types[a]);
    }
}

proof fn lemma_kept_types(params: Seq<KernelGeneric>, kept: Seq<int>, n: int, k: int)
    requires
        0 <= n <= params.len(),
        0 <= k <= kept.len(),
        forall|a: int, b: int| 0 <= a < b < kept.len() ==> #[trigger] kept[a] < #[trigger] kept[b],
        forall|a: int|
            0 <= a < kept.len() ==> 0 <= #[trigger] kept[a] < params.len()
                && params[kept[a]].type_ident is Some,
        forall|i: int|
            0 <= i < params.len() && (#[trigger] params[i]).type_ident is Some ==> kept.contains(i),
        forall|a: int| 0 <= a < k ==> #[trigger] kept[a] < n,
        forall|a: int| k <= a < kept.len() ==> #[trigger] kept[a] >= n,
    ensures
        type_idents(params, n).len() == k,
        forall|a: int|
            0 <= a < k ==> params[#[trigger] kept[a]].type_ident->0@ == type_idents(params, n)[a],
    decreases n,
{
    if n > 0 {
        if params[n - 1].type_ident is Some {
            assert(kept.contains(n - 1));
            let p = choose|p: int| 0 <= p < kept.len() && kept[p] == n - 1;
            assert(p < k);
            if p < k - 1 {
                assert(kept[p] < kept[k - 1]);
                assert(kept[k - 1] < n);
            }
            assert(p == k - 1);
            assert forall|a: int| 0 <= a < k - 1 implies #[trigger] kept[a] < n - 1 by {
                assert(kept[a] < kept[k - 1]);
            }
            assert forall|a: int| k - 1 <= a < kept.len() implies #[trigger] kept[a] >= n - 1 by {
                if a >= k {
                    assert(kept[a] >= n);
                }
            }
            lemma_kept_types(params, kept, n - 1, k - 1);
        } else {
            assert forall|a: int| 0 <= a < k implies #[trigger] kept[a] < n - 1 by {
                assert(kept[a] < n);
                if kept[a] == n - 1 {
                    assert(params[kept[a]].type_ident is Some);
                }
            }
            lemma_kept_types(params, kept, n - 1, k);
        }
    } else {
        if k > 0 {
            assert(kept[0] < n);
        }
    }
}

/// Safe plans are offered exactly for a safe entry point whose parameters plans can
/// record, unchecked ones wherever plans can record them; the marker lists every
/// parameter's kind.
pub proof fn plans_are_offered_where_they_can_be_recorded(
    l: Launcher,
    parts: LauncherParts,
    root: Seq<char>,
)
    requires
        laid_out(l, parts, root),
    ensures
        l.safe_plans <==> parts.plannable && !parts.is_unsafe,
        l.unchecked_plans <==> parts.plannable,
        l.safe_plans ==> l.unchecked_plans,
        l.params@.len() == parts.param_kinds@.len(),
        forall|i: int|
            0 <= i < parts.param_kinds@.len() ==> (#[trigger] l.params@[i])@
                == parts.param_kinds@[i]@,
{
    assert(text::texts(l.params@).len() == l.params@.len());
    assert(text::texts(parts.param_kinds@).len() == parts.param_kinds@.len());
    assert forall|i: int| 0 <= i < parts.param_kinds@.len() implies (#[trigger] l.params@[i])@
        == parts.param_kinds@[i]@ by {
        assert(text::texts(l.params@)[i] == text::texts(parts.param_kinds@)[i]);
    }
}

/// The launch mode is the last generic: a parameter of the struct, which defaults to the
/// standard mode, and an argument of every use, which names the mode or passes it on.
pub proof fn the_launch_mode_comes_last(l: Launcher, parts: LauncherParts, root: Seq<char>)
    requires
        laid_out(l, parts, root),
    ensures
        text::texts(l.standard_params@) == base_params(parts),
        text::texts(l.struct_params@) == base_params(parts).push(
            "_Mode: "@ + root + "::tile_kernel::LaunchMode"@,
        ),
        text::texts(l.struct_def_params@) == base_params(parts).push(
            "_Mode: "@ + root + "::tile_kernel::LaunchMode = "@ + (root
                + "::tile_kernel::StandardLaunch"@),
        ),
        text::texts(l.standard_args@) == base_args(parts).push(
            root + "::tile_kernel::StandardLaunch"@,
        ),
        text::texts(l.pdl_args@) == base_args(parts).push(
            root + "::tile_kernel::ProgrammaticDependentLaunch"@,
        ),
        text::texts(l.struct_args@) == base_args(parts).push("_Mode"@),
        text::texts(l.phantom_types@) == phantoms(parts),
{
}

/// The names of a launcher are made of the function's name and its camel case form.
pub proof fn launcher_names_are_made_of_the_functions(names: LauncherNames, function: Seq<char>)
    requires
        named(names, function),
    ensures
        names.launcher@ == upper_camel_of(function),
        names.args@ == names.launcher@ + "Args"@,
        names.entry@ == function + "_entry"@,
        names.user_impl@ == "__cutile_user_impl_"@ + function,
{
}

/// A function without a launcher is reported by its attribute's fault, or by its name.
pub proof fn launcher_faults_name_the_function(fault: EntryFault, function: String)
    ensures
        LauncherFault::Attribute(fault).text() == fault.text(),
        (LauncherFault::MissingEntry { function }).text() == "Unexpected entry point "@ + function@
            + ": Missing entry annotation."@,
{
}

} // verus!
