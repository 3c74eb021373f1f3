//! Routing of the items of a kernel module: which transformation each item goes
//! through, and in which order.
use vstd::prelude::*;

use crate::text;

verus! {

/// An attribute: the segments of its path, and the `method` and `trait_name`
/// arguments where it has them.
#[derive(Debug)]
pub struct Attr {
    pub path: Vec<String>,
    pub method: Option<String>,
    pub trait_name: Option<String>,
}

/// The segments of a path.
pub open spec fn segments(path: Seq<String>) -> Seq<Seq<char>> {
    path.map_values(|s: String| s@)
}

/// A path of two segments.
pub open spec fn path2(a: Seq<char>, b: Seq<char>) -> Seq<Seq<char>> {
    seq![a, b]
}

/// A path under `cuda_tile`.
pub open spec fn tile_path(name: Seq<char>) -> Seq<Seq<char>> {
    path2("cuda_tile"@, name)
}

/// Some attribute has the path.
pub open spec fn has_path(attrs: Seq<Attr>, path: Seq<Seq<char>>) -> bool {
    exists|i: int| 0 <= i < attrs.len() && segments((#[trigger] attrs[i]).path@) == path
}

/// `i` is the first attribute with the path.
pub open spec fn first_with(attrs: Seq<Attr>, path: Seq<Seq<char>>, i: int) -> bool {
    &&& 0 <= i < attrs.len()
    &&& segments(attrs[i].path@) == path
    &&& forall|k: int| 0 <= k < i ==> segments((#[trigger] attrs[k]).path@) != path
}

/// Some attribute's path ends in the segment.
pub open spec fn has_last_segment(attrs: Seq<Attr>, name: Seq<char>) -> bool {
    exists|i: int|
        0 <= i < attrs.len() && (#[trigger] attrs[i]).path@.len() > 0 && attrs[i].path@.last()@
            == name
}

/// Whether a path consists of two segments.
fn path_is(path: &Vec<String>, a: &str, b: &str) -> (r: bool)
    ensures
        r == (segments(path@) == path2(a@, b@)),
{
    let ghost want = path2(a@, b@);
    if path.len() != 2 {
        assert(segments(path@).len() != want.len());
        return false;
    }
    let first = text::same_text(path[0].as_str(), a);
    let second = text::same_text(path[1].as_str(), b);
    proof {
        assert(segments(path@)[0] == path@[0]@ && segments(path@)[1] == path@[1]@);
        assert(want[0] == a@ && want[1] == b@);
        if first && second {
            assert(segments(path@) =~= want);
        }
    }
    first && second
}

/// The first attribute with a path of two segments.
fn find_path(attrs: &Vec<Attr>, a: &str, b: &str) -> (r: Option<usize>)
    ensures
        match r {
            Some(i) => first_with(attrs@, path2(a@, b@), i as int),
            None => !has_path(attrs@, path2(a@, b@)),
        },
{
    let mut i: usize = 0;
    while i < attrs.len()
        invariant
            i <= attrs.len(),
            forall|k: int|
                0 <= k < i ==> segments((#[trigger] attrs@[k]).path@) != path2(a@, b@),
        decreases attrs.len() - i,
    {
        if path_is(&attrs[i].path, a, b) {
            return Some(i);
        }
        i += 1;
    }
    None
}

/// Whether some attribute has a path of two segments.
fn has_attr(attrs: &Vec<Attr>, a: &str, b: &str) -> (r: bool)
    ensures
        r == has_path(attrs@, path2(a@, b@)),
{
    match find_path(attrs, a, b) {
        Some(i) => {
            assert(segments(attrs@[i as int].path@) == path2(a@, b@));
            true
        },
        None => false,
    }
}

/// Whether some attribute's path ends in a segment.
fn has_last(attrs: &Vec<Attr>, name: &str) -> (r: bool)
    ensures
        r == has_last_segment(attrs@, name@),
{
    let mut i: usize = 0;
    while i < attrs.len()
        invariant
            i <= attrs.len(),
            forall|k: int|
                0 <= k < i ==> !((#[trigger] attrs@[k]).path@.len() > 0 && attrs@[k].path@.last()@
                    == name@),
        decreases attrs.len() - i,
    {
        let n = attrs[i].path.len();
        if n > 0 && text::same_text(attrs[i].path[n - 1].as_str(), name) {
            assert(attrs@[i as int].path@.last()@ == name@);
            return true;
        }
        i += 1;
    }
    false
}

/// How a trait is emitted.
#[derive(Debug, Clone, Copy, PartialEq, Eq, Structural)]
pub enum TraitRoute {
    /// Not emitted.
    Dropped,
    /// Desugared to one shadow trait.
    Variadic,
    Verbatim,
}

/// How an implementation is emitted.
#[derive(Debug, Clone, Copy, PartialEq, Eq, Structural)]
pub enum ImplRoute {
    /// Not emitted.
    Dropped,
    /// One implementation of the shadow trait per rank.
    VariadicTrait,
    /// One inherent implementation per rank.
    Variadic,
    Instantiated,
}

/// How a struct is emitted.
#[derive(Debug, Clone, Copy, PartialEq, Eq, Structural)]
pub enum StructRoute {
    /// One struct per rank, and its constructors.
    Variadic,
    Instantiated,
}

/// How a function is emitted.
#[derive(Debug)]
pub struct FunctionRoute {
    /// An entry point: its parameters are validated and it is renamed.
    pub entry: bool,
    /// Emitted as a shadow trait, its implementations and a wrapper, instead of
    /// being instantiated.
    pub dispatch: bool,
    /// The name of the trait method, where it differs from the function's.
    pub method: Option<String>,
    /// The name of the shadow trait, where it differs from the derived one.
    pub trait_name: Option<String>,
    /// The attributes that stay on the emitted function.
    pub kept: Vec<usize>,
}

/// The route of a trait with these attributes.
pub open spec fn trait_route(attrs: Seq<Attr>) -> TraitRoute {
    if has_path(attrs, tile_path("unchecked"@)) {
        TraitRoute::Dropped
    } else if has_path(attrs, tile_path("variadic_trait"@)) {
        TraitRoute::Variadic
    } else {
        TraitRoute::Verbatim
    }
}

/// The route of an implementation with these attributes.
pub open spec fn impl_route(attrs: Seq<Attr>) -> ImplRoute {
    if has_path(attrs, tile_path("unchecked"@)) {
        ImplRoute::Dropped
    } else if has_path(attrs, tile_path("variadic_trait_impl"@)) {
        ImplRoute::VariadicTrait
    } else if has_path(attrs, tile_path("variadic_impl"@)) {
        ImplRoute::Variadic
    } else {
        ImplRoute::Instantiated
    }
}

/// The route of a struct with these attributes.
pub open spec fn struct_route(attrs: Seq<Attr>) -> StructRoute {
    if has_path(attrs, tile_path("variadic_struct"@)) {
        StructRoute::Variadic
    } else {
        StructRoute::Instantiated
    }
}

/// The route of a trait.
pub fn trait_(attrs: &Vec<Attr>) -> (r: TraitRoute)
    ensures
        r == trait_route(attrs@),
{
    if has_attr(attrs, "cuda_tile", "unchecked") {
        TraitRoute::Dropped
    } else if has_attr(attrs, "cuda_tile", "variadic_trait") {
        TraitRoute::Variadic
    } else {
        TraitRoute::Verbatim
    }
}

/// The route of an implementation. A variadic trait implementation owns its
/// dispatch, whatever other variadic attribute stands beside it.
pub fn implementation(attrs: &Vec<Attr>) -> (r: ImplRoute)
    ensures
        r == impl_route(attrs@),
{
    if has_attr(attrs, "cuda_tile", "unchecked") {
        ImplRoute::Dropped
    } else if has_attr(attrs, "cuda_tile", "variadic_trait_impl") {
        ImplRoute::VariadicTrait
    } else if has_attr(attrs, "cuda_tile", "variadic_impl") {
        ImplRoute::Variadic
    } else {
        ImplRoute::Instantiated
    }
}

/// The route of a struct.
pub fn structure(attrs: &Vec<Attr>) -> (r: StructRoute)
    ensures
        r == struct_route(attrs@),
{
    if has_attr(attrs, "cuda_tile", "variadic_struct") {
        StructRoute::Variadic
    } else {
        StructRoute::Instantiated
    }
}

/// The structs of a variadic struct, then the constructors of those that have
/// one, both in rank order.
pub fn variadic_order<S, I>(items: Vec<(S, Option<I>)>) -> (r: (Vec<S>, Vec<I>))
    ensures
        r.0@ == items@.map_values(|e: (S, Option<I>)| e.0),
        r.1@ == present(items@),
{
    let ghost all = items@;
    let mut rest = items;
    let mut structs: Vec<S> = Vec::new();
    let mut impls: Vec<I> = Vec::new();
    let n = rest.len();
    let mut i: usize = 0;
    assert(rest@ =~= all.skip(0));
    while i < n
        invariant
            n == all.len(),
            i <= n,
            rest@ == all.skip(i as int),
            structs@ == all.take(i as int).map_values(|e: (S, Option<I>)| e.0),
            impls@ == present(all.take(i as int)),
        decreases n - i,
    {
        let (s, c) = rest.remove(0);
        proof {
            assert((s, c) == all[i as int]);
            assert(rest@ =~= all.skip(i + 1));
            assert(all.take(i + 1).drop_last() =~= all.take(i as int));
            assert(all.take(i + 1).map_values(|e: (S, Option<I>)| e.0) =~= all.take(
                i as int,
            ).map_values(|e: (S, Option<I>)| e.0).push(s));
        }
        structs.push(s);
        match c {
            Some(constructor) => {
                impls.push(constructor);
            },
            None => {},
        }
        i += 1;
    }
    assert(all.take(i as int) =~= all);
    (structs, impls)
}

/// The constructors that are present, in order.
pub open spec fn present<S, I>(items: Seq<(S, Option<I>)>) -> Seq<I>
    decreases items.len(),
{
    if items.len() == 0 {
        Seq::empty()
    } else {
        match items.last().1 {
            Some(i) => present(items.drop_last()).push(i),
            None => present(items.drop_last()),
        }
    }
}

/// An attribute that a function loses when it is emitted.
pub open spec fn cleared(attr: Attr, root: Seq<char>) -> bool {
    let path = segments(attr.path@);
    ||| path == tile_path("variadic_op"@)
    ||| path == tile_path("op"@)
    ||| path == tile_path("compiler_op"@)
    ||| path == path2(root, "entry"@)
}

/// The positions, below `n`, of the attributes that a function keeps.
pub open spec fn kept_attrs(attrs: Seq<Attr>, root: Seq<char>, n: int) -> Seq<usize>
    decreases n,
{
    if n <= 0 {
        Seq::empty()
    } else if cleared(attrs[n - 1], root) {
        kept_attrs(attrs, root, n - 1)
    } else {
        kept_attrs(attrs, root, n - 1).push((n - 1) as usize)
    }
}

/// The kinds of item that lose attributes when they are emitted.
#[derive(Debug, Clone, Copy, PartialEq, Eq, Structural)]
pub enum ItemKind {
    Trait,
    Impl,
    Struct,
    Static,
}

/// An attribute that an item of some kind loses when it is emitted.
pub open spec fn cleared_from(kind: ItemKind, attr: Attr) -> bool {
    let path = segments(attr.path@);
    match kind {
        ItemKind::Trait => path == tile_path("variadic_trait"@) || path == tile_path("ty"@),
        ItemKind::Impl => path == tile_path("variadic_trait_impl"@) || path == tile_path(
            "variadic_impl"@,
        ) || path == tile_path("ty"@),
        ItemKind::Struct => path == tile_path("variadic_struct"@) || path == tile_path("ty"@),
        ItemKind::Static => path == tile_path("global"@),
    }
}

/// The positions, below `n`, of the attributes that an item keeps.
pub open spec fn kept_by(kind: ItemKind, attrs: Seq<Attr>, n: int) -> Seq<usize>
    decreases n,
{
    if n <= 0 {
        Seq::empty()
    } else if cleared_from(kind, attrs[n - 1]) {
        kept_by(kind, attrs, n - 1)
    } else {
        kept_by(kind, attrs, n - 1).push((n - 1) as usize)
    }
}

/// The positions of the attributes that stay on an emitted item.
pub fn kept_attributes(kind: ItemKind, attrs: &Vec<Attr>) -> (r: Vec<usize>)
    ensures
        r@ == kept_by(kind, attrs@, attrs@.len() as int),
{
    let mut kept: Vec<usize> = Vec::new();
    let mut i: usize = 0;
    while i < attrs.len()
        invariant
            i <= attrs.len(),
            kept@ == kept_by(kind, attrs@, i as int),
        decreases attrs.len() - i,
    {
        let path = &attrs[i].path;
        let drop = match kind {
            ItemKind::Trait => path_is(path, "cuda_tile", "variadic_trait") || path_is(
                path,
                "cuda_tile",
                "ty",
            ),
            ItemKind::Impl => path_is(path, "cuda_tile", "variadic_trait_impl") || path_is(
                path,
                "cuda_tile",
                "variadic_impl",
            ) || path_is(path, "cuda_tile", "ty"),
            ItemKind::Struct => path_is(path, "cuda_tile", "variadic_struct") || path_is(
                path,
                "cuda_tile",
                "ty",
            ),
            ItemKind::Static => path_is(path, "cuda_tile", "global"),
        };
        assert(drop == cleared_from(kind, attrs@[i as int]));
        if !drop {
            kept.push(i);
        }
        i += 1;
    }
    kept
}

/// The text of an optional name.
pub open spec fn text_of(name: Option<String>) -> Option<Seq<char>> {
    match name {
        Some(s) => Some(s@),
        None => None,
    }
}

fn copy_name(name: &Option<String>) -> (r: Option<String>)
    ensures
        text_of(r) == text_of(*name),
{
    match name {
        Some(s) => Some(s.clone()),
        None => None,
    }
}

/// The route of a function in a module under `root`. Every rank-polymorphic
/// function is emitted by shadow dispatch; an entry point is validated and
/// renamed.
pub fn function(attrs: &Vec<Attr>, root: &str) -> (r: FunctionRoute)
    ensures
        r.entry == has_last_segment(attrs@, "entry"@),
        r.dispatch == has_path(attrs@, tile_path("variadic_op"@)),
        r.kept@ == kept_attrs(attrs@, root@, attrs@.len() as int),
        r.dispatch ==> exists|i: int|
            #![trigger attrs@[i]]
            first_with(attrs@, tile_path("variadic_op"@), i) && text_of(r.method) == text_of(
                attrs@[i].method,
            ) && text_of(r.trait_name) == text_of(attrs@[i].trait_name),
        !r.dispatch ==> r.method is None && r.trait_name is None,
{
    let entry = has_last(attrs, "entry");
    let mut kept: Vec<usize> = Vec::new();
    let mut i: usize = 0;
    while i < attrs.len()
        invariant
            i <= attrs.len(),
            kept@ == kept_attrs(attrs@, root@, i as int),
        decreases attrs.len() - i,
    {
        let path = &attrs[i].path;
        let drop = path_is(path, "cuda_tile", "variadic_op") || path_is(path, "cuda_tile", "op")
            || path_is(path, "cuda_tile", "compiler_op") || path_is(path, root, "entry");
        assert(drop == cleared(attrs@[i as int], root@));
        if !drop {
            kept.push(i);
        }
        i += 1;
    }
    match find_path(attrs, "cuda_tile", "variadic_op") {
        Some(k) => {
            assert(segments(attrs@[k as int].path@) == tile_path("variadic_op"@));
            FunctionRoute {
                entry,
                dispatch: true,
                method: copy_name(&attrs[k].method),
                trait_name: copy_name(&attrs[k].trait_name),
                kept,
            }
        },
        None => FunctionRoute { entry, dispatch: false, method: None, trait_name: None, kept },
    }
}

/// An item of a kernel module.
#[derive(Debug)]
pub enum Item {
    Use,
    Fn { attrs: Vec<Attr> },
    Struct,
    Trait,
    Type,
    Impl,
    Macro,
    Const,
    Static,
    /// A submodule, with its items where it has an inline body.
    Mod { content: Option<Vec<Item>> },
    Other,
}

/// Why an item is refused.
#[derive(Debug, Clone, Copy, PartialEq, Eq, Structural)]
pub enum ItemFault {
    /// A submodule without an inline body.
    FileModule,
    Unsupported,
}

impl ItemFault {
    /// The text the fault is reported with.
    pub open spec fn text(self) -> Seq<char> {
        match self {
            ItemFault::FileModule =>
                "Submodule inside `#[cutile::module]` must have an inline body (`mod foo { ... }`); file-loaded submodules (`mod foo;`) are not supported because the macro needs the body at expansion time."@,
            ItemFault::Unsupported => "Unsupported item type in module."@,
        }
    }

    /// The text the fault is reported with.
    pub fn as_str(self) -> (r: &'static str)
        ensures
            r@ == self.text(),
    {
        match self {
            ItemFault::FileModule =>
                "Submodule inside `#[cutile::module]` must have an inline body (`mod foo { ... }`); file-loaded submodules (`mod foo;`) are not supported because the macro needs the body at expansion time.",
            ItemFault::Unsupported => "Unsupported item type in module.",
        }
    }
}

/// One step of an expansion; `index` is the position of the item in its module.
#[derive(Debug, Clone, Copy, PartialEq, Eq, Structural)]
pub enum Step {
    /// Emit the item as it is.
    Verbatim { index: usize },
    /// Generate the launcher of an entry point.
    Launcher { index: usize },
    Function { index: usize },
    Structure { index: usize },
    Trait { index: usize },
    TypeAlias { index: usize },
    Implementation { index: usize },
    Static { index: usize },
    /// Begin a submodule.
    Enter { index: usize },
    /// End a submodule: wrap what it emitted, launchers last.
    Leave { index: usize },
    /// Stop: the item is refused.
    Refuse { index: usize, fault: ItemFault },
}

/// The expansion has stopped.
pub open spec fn halted(steps: Seq<Step>) -> bool {
    steps.len() > 0 && steps.last() is Refuse
}

/// The steps of one item.
pub open spec fn item_steps(item: Item, i: int, root: Seq<char>) -> Seq<Step>
    decreases item, 0int,
{
    let index = i as usize;
    match item {
        Item::Use => seq![Step::Verbatim { index }],
        Item::Fn { attrs } => if has_path(attrs@, path2(root, "entry"@)) {
            seq![Step::Launcher { index }, Step::Function { index }]
        } else {
            seq![Step::Function { index }]
        },
        Item::Struct => seq![Step::Structure { index }],
        Item::Trait => seq![Step::Trait { index }],
        Item::Type => seq![Step::TypeAlias { index }],
        Item::Impl => seq![Step::Implementation { index }],
        Item::Macro => seq![Step::Verbatim { index }],
        Item::Const => seq![Step::Verbatim { index }],
        Item::Static => seq![Step::Static { index }],
        Item::Mod { content: None } => seq![Step::Refuse { index, fault: ItemFault::FileModule }],
        Item::Mod { content: Some(items) } => {
            let inner = walk(items@, items@.len() as int, root);
            if halted(inner) {
                seq![Step::Enter { index }] + inner
            } else {
                seq![Step::Enter { index }] + inner + seq![Step::Leave { index }]
            }
        },
        Item::Other => seq![Step::Refuse { index, fault: ItemFault::Unsupported }],
    }
}

/// The steps of the first `n` items, in order, up to the first refusal.
pub open spec fn walk(items: Seq<Item>, n: int, root: Seq<char>) -> Seq<Step>
    decreases items, n,
{
    if n <= 0 || n > items.len() {
        Seq::empty()
    } else {
        let before = walk(items, n - 1, root);
        if halted(before) {
            before
        } else {
            before + item_steps(items[n - 1], n - 1, root)
        }
    }
}

proof fn lemma_walk_halted(items: Seq<Item>, m: int, n: int, root: Seq<char>)
    requires
        0 <= m <= n <= items.len(),
        halted(walk(items, m, root)),
    ensures
        walk(items, n, root) == walk(items, m, root),
    decreases n,
{
    if m < n {
        lemma_walk_halted(items, m, n - 1, root);
    }
}

/// The steps that expand the items of a module, or of a submodule: each item in
/// its declaration order, a submodule's items between its begin and its end, and
/// no step after a refusal.
pub fn process_items(items: &Vec<Item>, root: &str) -> (r: Vec<Step>)
    ensures
        r@ == walk(items@, items@.len() as int, root@),
    decreases items,
{
    let mut steps: Vec<Step> = Vec::new();
    let mut i: usize = 0;
    while i < items.len()
        invariant
            i <= items@.len(),
            steps@ == walk(items@, i as int, root@),
            !halted(steps@),
        decreases items.len() - i,
    {
        let ghost before = steps@;
        let mut stop = false;
        match &items[i] {
            Item::Use | Item::Macro | Item::Const => {
                steps.push(Step::Verbatim { index: i });
            },
            Item::Fn { attrs } => {
                if has_attr(attrs, root, "entry") {
                    steps.push(Step::Launcher { index: i });
                }
                steps.push(Step::Function { index: i });
            },
            Item::Struct => {
                steps.push(Step::Structure { index: i });
            },
            Item::Trait => {
                steps.push(Step::Trait { index: i });
            },
            Item::Type => {
                steps.push(Step::TypeAlias { index: i });
            },
            Item::Impl => {
                steps.push(Step::Implementation { index: i });
            },
            Item::Static => {
                steps.push(Step::Static { index: i });
            },
            Item::Mod { content } => match content {
                None => {
                    steps.push(Step::Refuse { index: i, fault: ItemFault::FileModule });
                    stop = true;
                },
                Some(body) => {
                    steps.push(Step::Enter { index: i });
                    let mut inner = process_items(body, root);
                    let n = inner.len();
                    if n > 0 {
                        if let Step::Refuse { .. } = inner[n - 1] {
                            stop = true;
                        }
                    }
                    steps.append(&mut inner);
                    if !stop {
                        steps.push(Step::Leave { index: i });
                    }
                },
            },
            Item::Other => {
                steps.push(Step::Refuse { index: i, fault: ItemFault::Unsupported });
                stop = true;
            },
        }
        assert(steps@ =~= before + item_steps(items@[i as int], i as int, root@));
        assert(steps@ == walk(items@, i + 1, root@));
        if stop {
            assert(halted(steps@));
            proof {
                lemma_walk_halted(items@, i + 1, items@.len() as int, root@);
            }
            return steps;
        }
        i += 1;
    }
    steps
}

/// Some function of the module itself is an entry point.
pub open spec fn has_entries(items: Seq<Item>, root: Seq<char>) -> bool {
    exists|i: int|
        0 <= i < items.len() && (#[trigger] items[i]) is Fn && has_path(
            items[i]->attrs@,
            path2(root, "entry"@),
        )
}

/// Whether some function of the module itself is an entry point: only then does
/// the module import what launchers need.
pub fn has_entry_functions(items: &Vec<Item>, root: &str) -> (r: bool)
    ensures
        r == has_entries(items@, root@),
{
    let mut i: usize = 0;
    while i < items.len()
        invariant
            i <= items.len(),
            forall|k: int|
                0 <= k < i ==> !((#[trigger] items@[k]) is Fn && has_path(
                    items@[k]->attrs@,
                    path2(root@, "entry"@),
                )),
        decreases items.len() - i,
    {
        if let Item::Fn { attrs } = &items[i] {
            if has_attr(attrs, root, "entry") {
                assert(items@[i as int] is Fn && has_path(
                    items@[i as int]->attrs@,
                    path2(root@, "entry"@),
                ));
                return true;
            }
        }
        i += 1;
    }
    false
}

/// Every item, at every depth, is one that a module may hold.
pub open spec fn supported(items: Seq<Item>, n: int) -> bool
    decreases items, n,
{
    if n <= 0 || n > items.len() {
        true
    } else {
        supported(items, n - 1) && supported_item(items[n - 1])
    }
}

/// The item, at every depth, is one that a module may hold.
pub open spec fn supported_item(item: Item) -> bool
    decreases item, 0int,
{
    match item {
        Item::Other => false,
        Item::Mod { content: None } => false,
        Item::Mod { content: Some(items) } => supported(items@, items@.len() as int),
        _ => true,
    }
}

/// An expansion runs to its end exactly when every item is supported.
pub proof fn an_expansion_halts_only_at_unsupported_items(
    items: Seq<Item>,
    n: int,
    root: Seq<char>,
)
    requires
        0 <= n <= items.len(),
    ensures
        !halted(walk(items, n, root)) <==> supported(items, n),
    decreases items, n,
{
    if n > 0 {
        an_expansion_halts_only_at_unsupported_items(items, n - 1, root);
        lemma_item_halts(items[n - 1], n - 1, root);
        let before = walk(items, n - 1, root);
        let step = item_steps(items[n - 1], n - 1, root);
        if !halted(before) {
            assert((before + step).last() == step.last());
        }
    }
}

proof fn lemma_item_halts(item: Item, i: int, root: Seq<char>)
    ensures
        item_steps(item, i, root).len() > 0,
        !halted(item_steps(item, i, root)) <==> supported_item(item),
    decreases item, 0int,
{
    match item {
        Item::Mod { content: Some(items) } => {
            an_expansion_halts_only_at_unsupported_items(items@, items@.len() as int, root);
            let inner = walk(items@, items@.len() as int, root);
            let enter = seq![Step::Enter { index: i as usize }];
            if halted(inner) {
                assert((enter + inner).last() == inner.last());
            }
        },
        _ => {},
    }
}

/// An attribute counts wherever it stands in the list: a function, trait, struct or
/// implementation carries `a::b` exactly when the path of some attribute has these
/// two segments, and the one that counts is the first such.
pub proof fn an_attribute_counts_at_any_position(attrs: Seq<Attr>, a: Seq<char>, b: Seq<char>)
    ensures
        has_path(attrs, path2(a, b)) <==> exists|k: int|
            0 <= k < attrs.len() && (#[trigger] attrs[k]).path@.len() == 2 && attrs[k].path@[0]@
                == a && attrs[k].path@[1]@ == b,
        forall|k: int| #[trigger]
            first_with(attrs, path2(a, b), k) <==> 0 <= k < attrs.len() && attrs[k].path@.len() == 2
                && attrs[k].path@[0]@ == a && attrs[k].path@[1]@ == b && forall|j: int|
                0 <= j < k ==> !((#[trigger] attrs[j]).path@.len() == 2 && attrs[j].path@[0]@ == a
                    && attrs[j].path@[1]@ == b),
        has_last_segment(attrs, b) <==> exists|k: int|
            0 <= k < attrs.len() && (#[trigger] attrs[k]).path@.len() > 0
                && attrs[k].path@[attrs[k].path@.len() - 1]@ == b,
{
    assert forall|k: int| 0 <= k < attrs.len() implies (segments((#[trigger] attrs[k]).path@)
        == path2(a, b) <==> attrs[k].path@.len() == 2 && attrs[k].path@[0]@ == a
        && attrs[k].path@[1]@ == b) by {
        lemma_two_segments(attrs[k].path@, a, b);
    }
    if has_path(attrs, path2(a, b)) {
        let k = choose|k: int|
            0 <= k < attrs.len() && segments((#[trigger] attrs[k]).path@) == path2(a, b);
        assert(attrs[k].path@.len() == 2);
    }
    if has_last_segment(attrs, b) {
        let k = choose|k: int|
            0 <= k < attrs.len() && (#[trigger] attrs[k]).path@.len() > 0 && attrs[k].path@.last()@
                == b;
        assert(attrs[k].path@[attrs[k].path@.len() - 1]@ == b);
    }
}

/// A path has two given segments.
proof fn lemma_two_segments(path: Seq<String>, a: Seq<char>, b: Seq<char>)
    ensures
        segments(path) == path2(a, b) <==> path.len() == 2 && path[0]@ == a && path[1]@ == b,
{
    if segments(path) == path2(a, b) {
        assert(segments(path).len() == 2);
        assert(segments(path)[0] == path[0]@ && segments(path)[1] == path[1]@);
        assert(path2(a, b)[0] == a && path2(a, b)[1] == b);
    }
    if path.len() == 2 && path[0]@ == a && path[1]@ == b {
        assert(segments(path) =~= path2(a, b));
    }
}

/// The first items of a longer list expand as they do alone.
proof fn lemma_walk_prefix(items: Seq<Item>, item: Item, n: int, root: Seq<char>)
    requires
        0 <= n <= items.len(),
    ensures
        walk(items.push(item), n, root) == walk(items, n, root),
    decreases n,
{
    if n > 0 {
        lemma_walk_prefix(items, item, n - 1, root);
        assert(items.push(item)[n - 1] == items[n - 1]);
    }
}

/// An expansion grows item by item. No item adds to an expansion that a refusal
/// ended. Otherwise a function adds its own step, directly after a launcher step
/// exactly when some attribute, at any position, is `root::entry`; a submodule adds
/// the expansion of its items between its begin and its end, a submodule without a
/// body and an item of no known kind a refusal, and every other item one step of its
/// kind. Each step carries the position of its item.
pub proof fn an_expansion_grows_item_by_item(items: Seq<Item>, item: Item, root: Seq<char>)
    ensures
        walk(Seq::<Item>::empty(), 0, root) == Seq::<Step>::empty(),
        ({
            let before = walk(items, items.len() as int, root);
            let after = walk(items.push(item), items.len() as int + 1, root);
            let index = items.len() as usize;
            if before.len() > 0 && before[before.len() - 1] is Refuse {
                after == before
            } else {
                match item {
                    Item::Use => after == before + seq![(Step::Verbatim { index })],
                    Item::Macro => after == before + seq![(Step::Verbatim { index })],
                    Item::Const => after == before + seq![(Step::Verbatim { index })],
                    Item::Fn { attrs } => if exists|k: int|
                        0 <= k < attrs@.len() && (#[trigger] attrs@[k]).path@.len() == 2
                            && attrs@[k].path@[0]@ == root && attrs@[k].path@[1]@ == "entry"@ {
                        after == before + seq![(Step::Launcher { index }), (Step::Function { index })]
                    } else {
                        after == before + seq![(Step::Function { index })]
                    },
                    Item::Struct => after == before + seq![(Step::Structure { index })],
                    Item::Trait => after == before + seq![(Step::Trait { index })],
                    Item::Type => after == before + seq![(Step::TypeAlias { index })],
                    Item::Impl => after == before + seq![(Step::Implementation { index })],
                    Item::Static => after == before + seq![(Step::Static { index })],
                    Item::Mod { content: None } => after == before + seq![
                        (Step::Refuse { index, fault: ItemFault::FileModule }),
                    ],
                    Item::Mod { content: Some(body) } => {
                        let inner = walk(body@, body@.len() as int, root);
                        after == before + seq![(Step::Enter { index })] + inner + (if inner.len() > 0
                            && inner[inner.len() - 1] is Refuse {
                            Seq::<Step>::empty()
                        } else {
                            seq![(Step::Leave { index })]
                        })
                    },
                    Item::Other => after == before + seq![
                        (Step::Refuse { index, fault: ItemFault::Unsupported }),
                    ],
                }
            }
        }),
{
    let n = items.len() as int;
    lemma_walk_prefix(items, item, n, root);
    assert(items.push(item)[n] == item);
    let before = walk(items, n, root);
    let after = walk(items.push(item), n + 1, root);
    if !halted(before) {
        assert(after == before + item_steps(item, n, root));
        match item {
            Item::Fn { attrs } => {
                an_attribute_counts_at_any_position(attrs@, root, "entry"@);
            },
            Item::Mod { content: Some(body) } => {
                let inner = walk(body@, body@.len() as int, root);
                let enter = seq![Step::Enter { index: n as usize }];
                if halted(inner) {
                    assert(after =~= before + enter + inner + Seq::<Step>::empty());
                } else {
                    assert(after =~= before + enter + inner + seq![
                        Step::Leave { index: n as usize },
                    ]);
                }
            },
            _ => {},
        }
    }
}

/// A module imports what launchers need exactly when its own items, expanded one
/// after the other, give some launcher step: when some function of its own carries
/// `root::entry`.
pub proof fn launchers_are_imported_where_one_is_generated(items: Seq<Item>, root: Seq<char>)
    ensures
        has_entries(items, root) <==> exists|i: int, k: int|
            0 <= i < items.len() && (#[trigger] items[i]) is Fn && 0 <= k < items[i]->attrs@.len()
                && (#[trigger] items[i]->attrs@[k]).path@.len() == 2
                && items[i]->attrs@[k].path@[0]@ == root && items[i]->attrs@[k].path@[1]@
                == "entry"@,
        has_entries(items, root) <==> exists|i: int|
            0 <= i < items.len() && (#[trigger] item_steps(items[i], i, root)).len() == 2
                && item_steps(items[i], i, root)[0] is Launcher,
{
    if has_entries(items, root) {
        let i = choose|i: int|
            0 <= i < items.len() && (#[trigger] items[i]) is Fn && has_path(
                items[i]->attrs@,
                path2(root, "entry"@),
            );
        an_attribute_counts_at_any_position(items[i]->attrs@, root, "entry"@);
        let k = choose|k: int|
            0 <= k < items[i]->attrs@.len() && (#[trigger] items[i]->attrs@[k]).path@.len() == 2
                && items[i]->attrs@[k].path@[0]@ == root && items[i]->attrs@[k].path@[1]@
                == "entry"@;
        assert(items[i] is Fn && items[i]->attrs@[k].path@.len() == 2);
        assert(item_steps(items[i], i, root)[0] is Launcher);
    }
    if exists|i: int, k: int|
        0 <= i < items.len() && (#[trigger] items[i]) is Fn && 0 <= k < items[i]->attrs@.len() && (
        #[trigger] items[i]->attrs@[k]).path@.len() == 2 && items[i]->attrs@[k].path@[0]@ == root
            && items[i]->attrs@[k].path@[1]@ == "entry"@ {
        let (i, k) = choose|i: int, k: int|
            0 <= i < items.len() && (#[trigger] items[i]) is Fn && 0 <= k < items[i]->attrs@.len()
                && (#[trigger] items[i]->attrs@[k]).path@.len() == 2
                && items[i]->attrs@[k].path@[0]@ == root && items[i]->attrs@[k].path@[1]@
                == "entry"@;
        an_attribute_counts_at_any_position(items[i]->attrs@, root, "entry"@);
        assert(has_path(items[i]->attrs@, path2(root, "entry"@)));
    }
    if exists|i: int|
        0 <= i < items.len() && (#[trigger] item_steps(items[i], i, root)).len() == 2
            && item_steps(items[i], i, root)[0] is Launcher {
        let i = choose|i: int|
            0 <= i < items.len() && (#[trigger] item_steps(items[i], i, root)).len() == 2
                && item_steps(items[i], i, root)[0] is Launcher;
        assert(items[i] is Fn);
    }
}

/// A trait or implementation that is not checked is dropped, whatever else it
/// carries; a trait is desugared exactly when it is variadic, an implementation of a
/// variadic trait goes to its shadow trait before any other rule, and a struct has
/// one instance per rank exactly when it is variadic.
pub proof fn attributes_decide_the_route(attrs: Seq<Attr>)
    ensures
        ({
            let unchecked = has_path(attrs, seq!["cuda_tile"@, "unchecked"@]);
            let variadic_trait = has_path(attrs, seq!["cuda_tile"@, "variadic_trait"@]);
            let trait_impl = has_path(attrs, seq!["cuda_tile"@, "variadic_trait_impl"@]);
            let variadic_impl = has_path(attrs, seq!["cuda_tile"@, "variadic_impl"@]);
            let variadic_struct = has_path(attrs, seq!["cuda_tile"@, "variadic_struct"@]);
            &&& (trait_route(attrs) is Dropped <==> unchecked)
            &&& (trait_route(attrs) is Variadic <==> !unchecked && variadic_trait)
            &&& (impl_route(attrs) is Dropped <==> unchecked)
            &&& (impl_route(attrs) is VariadicTrait <==> !unchecked && trait_impl)
            &&& (impl_route(attrs) is Variadic <==> !unchecked && !trait_impl && variadic_impl)
            &&& (struct_route(attrs) is Variadic <==> variadic_struct)
        }),
{
}

/// A function keeps, in their order, exactly the attributes that are none of
/// `cuda_tile::variadic_op`, `cuda_tile::op`, `cuda_tile::compiler_op` and
/// `root::entry`.
pub proof fn a_function_keeps_foreign_attributes(attrs: Seq<Attr>, root: Seq<char>)
    requires
        attrs.len() <= usize::MAX,
    ensures
        ({
            let kept = kept_attrs(attrs, root, attrs.len() as int);
            &&& forall|i: int, j: int| 0 <= i < j < kept.len() ==> #[trigger] kept[i]
                < #[trigger] kept[j]
            &&& forall|k: int|
                0 <= k < attrs.len() ==> (kept.contains(k as usize) <==> !(segments(
                    (#[trigger] attrs[k]).path@,
                ) == seq!["cuda_tile"@, "variadic_op"@] || segments(attrs[k].path@) == seq![
                    "cuda_tile"@,
                    "op"@,
                ] || segments(attrs[k].path@) == seq!["cuda_tile"@, "compiler_op"@] || segments(
                    attrs[k].path@,
                ) == seq![root, "entry"@]))
            &&& forall|i: int| 0 <= i < kept.len() ==> #[trigger] kept[i] < attrs.len()
        }),
{
    lemma_kept_attrs(attrs, root, attrs.len() as int);
}

proof fn lemma_kept_attrs(attrs: Seq<Attr>, root: Seq<char>, n: int)
    requires
        0 <= n <= attrs.len() <= usize::MAX,
    ensures
        forall|i: int, j: int|
            0 <= i < j < kept_attrs(attrs, root, n).len() ==> #[trigger] kept_attrs(
                attrs,
                root,
                n,
            )[i] < #[trigger] kept_attrs(attrs, root, n)[j],
        forall|i: int|
            0 <= i < kept_attrs(attrs, root, n).len() ==> #[trigger] kept_attrs(attrs, root, n)[i]
                < n,
        forall|k: int|
            0 <= k < n ==> (kept_attrs(attrs, root, n).contains(k as usize) <==> !cleared(
                #[trigger] attrs[k],
                root,
            )),
    decreases n,
{
    if n > 0 {
        lemma_kept_attrs(attrs, root, n - 1);
        let (before, after) = (kept_attrs(attrs, root, n - 1), kept_attrs(attrs, root, n));
        assert forall|k: int| 0 <= k < n implies (after.contains(k as usize) <==> !cleared(
            #[trigger] attrs[k],
            root,
        )) by {
            if k < n - 1 {
                if before.contains(k as usize) {
                    let i = choose|i: int| 0 <= i < before.len() && before[i] == k as usize;
                    assert(after[i] == k as usize);
                }
                if after.contains(k as usize) {
                    let i = choose|i: int| 0 <= i < after.len() && after[i] == k as usize;
                    assert(i < before.len());
                    assert(before[i] == k as usize);
                }
            } else {
                if cleared(attrs[k], root) {
                    if after.contains(k as usize) {
                        let i = choose|i: int| 0 <= i < after.len() && after[i] == k as usize;
                        assert(before[i] < n - 1);
                    }
                } else {
                    assert(after[after.len() - 1] == k as usize);
                }
            }
        }
    }
}

/// A trait, implementation, struct or static keeps, in their order, exactly the
/// attributes that are not the markers of its kind.
pub proof fn an_item_keeps_foreign_attributes(kind: ItemKind, attrs: Seq<Attr>)
    requires
        attrs.len() <= usize::MAX,
    ensures
        ({
            let kept = kept_by(kind, attrs, attrs.len() as int);
            &&& forall|i: int, j: int| 0 <= i < j < kept.len() ==> #[trigger] kept[i]
                < #[trigger] kept[j]
            &&& forall|i: int| 0 <= i < kept.len() ==> #[trigger] kept[i] < attrs.len()
            &&& forall|k: int|
                0 <= k < attrs.len() ==> (kept.contains(k as usize) <==> {
                    let path = segments((#[trigger] attrs[k]).path@);
                    match kind {
                        ItemKind::Trait => path != seq!["cuda_tile"@, "variadic_trait"@] && path
                            != seq!["cuda_tile"@, "ty"@],
                        ItemKind::Impl => path != seq!["cuda_tile"@, "variadic_trait_impl"@] && path
                            != seq!["cuda_tile"@, "variadic_impl"@] && path != seq![
                            "cuda_tile"@,
                            "ty"@,
                        ],
                        ItemKind::Struct => path != seq!["cuda_tile"@, "variadic_struct"@] && path
                            != seq!["cuda_tile"@, "ty"@],
                        ItemKind::Static => path != seq!["cuda_tile"@, "global"@],
                    }
                })
        }),
{
    lemma_kept_by(kind, attrs, attrs.len() as int);
}

proof fn lemma_kept_by(kind: ItemKind, attrs: Seq<Attr>, n: int)
    requires
        0 <= n <= attrs.len() <= usize::MAX,
    ensures
        forall|i: int, j: int|
            0 <= i < j < kept_by(kind, attrs, n).len() ==> #[trigger] kept_by(kind, attrs, n)[i]
                < #[trigger] kept_by(kind, attrs, n)[j],
        forall|i: int|
            0 <= i < kept_by(kind, attrs, n).len() ==> #[trigger] kept_by(kind, attrs, n)[i] < n,
        forall|k: int|
            0 <= k < n ==> (kept_by(kind, attrs, n).contains(k as usize) <==> !cleared_from(
                kind,
                #[trigger] attrs[k],
            )),
    decreases n,
{
    if n > 0 {
        lemma_kept_by(kind, attrs, n - 1);
        let (before, after) = (kept_by(kind, attrs, n - 1), kept_by(kind, attrs, n));
        assert forall|k: int| 0 <= k < n implies (after.contains(k as usize) <==> !cleared_from(
            kind,
            #[trigger] attrs[k],
        )) by {
            if k < n - 1 {
                if before.contains(k as usize) {
                    let i = choose|i: int| 0 <= i < before.len() && before[i] == k as usize;
                    assert(after[i] == k as usize);
                }
                if after.contains(k as usize) {
                    let i = choose|i: int| 0 <= i < after.len() && after[i] == k as usize;
                    assert(i < before.len());
                    assert(before[i] == k as usize);
                }
            } else {
                if cleared_from(kind, attrs[k]) {
                    if after.contains(k as usize) {
                        let i = choose|i: int| 0 <= i < after.len() && after[i] == k as usize;
                        assert(before[i] < n - 1);
                    }
                } else {
                    assert(after[after.len() - 1] == k as usize);
                }
            }
        }
    }
}

/// Constructors come in the order of their structs, and only where there is one.
pub proof fn constructors_come_in_struct_order<S, I>(items: Seq<(S, Option<I>)>, s: S, c: I)
    ensures
        present(Seq::<(S, Option<I>)>::empty()) == Seq::<I>::empty(),
        present(items.push((s, Some(c)))) == present(items).push(c),
        present(items.push((s, None))) == present(items),
{
    assert(items.push((s, Some(c))).drop_last() =~= items);
    assert(items.push((s, None)).drop_last() =~= items);
}

/// The segments of a path are its texts, in order.
pub proof fn segments_are_the_texts_of_a_path(path: Seq<String>)
    ensures
        segments(path).len() == path.len(),
        forall|i: int| 0 <= i < path.len() ==> #[trigger] segments(path)[i] == path[i]@,
{
}

/// A name is copied with its text, and an absent name stays absent.
pub proof fn names_are_copied_with_their_text(a: Option<String>, b: Option<String>)
    ensures
        text_of(a) == text_of(b) <==> (a is Some <==> b is Some) && (a is Some ==> a->Some_0@
            == b->Some_0@),
{
}

} // verus!
