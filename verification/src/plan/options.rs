//! The builder options of a plan: launcher settings that shape a launch without
//! being a function of its arguments.
use vstd::prelude::*;

use crate::plan::key;
use crate::text;

verus! {

/// Options of the kernel compiler.
#[derive(Debug, PartialEq, Eq, Hash)]
pub struct CompileOptions {
    /// Emit line information.
    pub lineinfo: bool,
    /// The other options that differ from their defaults, one text each, in the
    /// order in which the compiler declares them. The compiler alone reads them.
    pub others: Vec<String>,
}

/// The contents of [`CompileOptions`].
#[verifier::ext_equal]
pub struct CompileModel {
    pub lineinfo: bool,
    pub others: Seq<Seq<char>>,
}

/// No compiler option differs from its default.
pub open spec fn default_compile() -> CompileModel {
    CompileModel { lineinfo: false, others: Seq::empty() }
}

impl View for CompileOptions {
    type V = CompileModel;

    open spec fn view(&self) -> CompileModel {
        CompileModel { lineinfo: self.lineinfo, others: text::texts(self.others@) }
    }
}

impl CompileOptions {
    /// Whether two sets of compiler options are equal.
    pub fn same(&self, other: &CompileOptions) -> (r: bool)
        ensures
            r == (self@ == other@),
    {
        self.lineinfo == other.lineinfo && same_texts(&self.others, &other.others)
    }
}

impl Default for CompileOptions {
    fn default() -> (r: Self)
        ensures
            r@ == default_compile(),
    {
        CompileOptions { lineinfo: false, others: Vec::new() }
    }
}

impl Clone for CompileOptions {
    fn clone(&self) -> (r: Self)
        ensures
            r@ == self@,
    {
        CompileOptions { lineinfo: self.lineinfo, others: copy_texts(&self.others) }
    }
}

/// How a plan's launch grid is chosen.
#[derive(Debug, Clone, Copy, PartialEq, Eq, Hash)]
pub enum PlanGrid {
    /// Inferred from the partitioned outputs, as when no grid is set.
    Inferred,
    /// Explicit.
    Grid((u32, u32, u32)),
    /// Explicit and specialized on.
    ConstGrid((u32, u32, u32)),
}

impl Default for PlanGrid {
    fn default() -> (r: Self)
        ensures
            r is Inferred,
    {
        PlanGrid::Inferred
    }
}

/// The builder options a plan was built with.
#[derive(Debug, PartialEq, Eq, Hash)]
pub struct PlanOptions {
    grid: PlanGrid,
    generics: Option<Vec<String>>,
    compile_options: CompileOptions,
}

/// The contents of [`PlanOptions`].
#[verifier::ext_equal]
pub struct OptionsModel {
    pub grid: PlanGrid,
    pub generics: Option<Seq<Seq<char>>>,
    pub compile_options: CompileModel,
}

/// The grid that an explicit `grid` sets: none where it is `(0, 0, 0)`.
pub open spec fn explicit_grid(grid: (u32, u32, u32)) -> PlanGrid {
    if grid == (0u32, 0u32, 0u32) {
        PlanGrid::Inferred
    } else {
        PlanGrid::Grid(grid)
    }
}

/// The grid as a launcher's fields: the dimensions, `(0, 0, 0)` where not set,
/// and whether the kernel is specialized on them.
pub open spec fn launcher_fields(grid: PlanGrid) -> ((u32, u32, u32), bool) {
    match grid {
        PlanGrid::Inferred => ((0u32, 0u32, 0u32), false),
        PlanGrid::Grid(g) => (g, false),
        PlanGrid::ConstGrid(g) => (g, true),
    }
}

/// The grid that a launcher's fields mean.
pub open spec fn grid_of_fields(grid: (u32, u32, u32), const_grid: bool) -> PlanGrid {
    if const_grid {
        PlanGrid::ConstGrid(grid)
    } else {
        explicit_grid(grid)
    }
}

/// The words of a list of texts, each with its length.
pub open spec fn texts_words(s: Seq<Seq<char>>) -> Seq<usize>
    decreases s.len(),
{
    if s.len() == 0 {
        Seq::empty()
    } else {
        texts_words(s.drop_last()) + key::text_words(s.last())
    }
}

/// The words of a grid choice.
pub open spec fn grid_words(grid: PlanGrid) -> Seq<usize> {
    match grid {
        PlanGrid::Inferred => seq![0usize],
        PlanGrid::Grid(g) => seq![1usize, g.0 as usize, g.1 as usize, g.2 as usize],
        PlanGrid::ConstGrid(g) => seq![2usize, g.0 as usize, g.1 as usize, g.2 as usize],
    }
}

/// The words of a choice of generics.
pub open spec fn generics_words(generics: Option<Seq<Seq<char>>>) -> Seq<usize> {
    match generics {
        Some(g) => seq![1usize, g.len() as usize] + texts_words(g),
        None => seq![0usize],
    }
}

impl CompileModel {
    /// The words of the compiler's options.
    pub open spec fn words(self) -> Seq<usize> {
        seq![key::flag_word(self.lineinfo), self.others.len() as usize] + texts_words(self.others)
    }
}

impl OptionsModel {
    /// The words that the options add to a cache key.
    pub open spec fn words(self) -> Seq<usize> {
        grid_words(self.grid) + generics_words(self.generics) + self.compile_options.words()
    }
}

fn same_grid(a: PlanGrid, b: PlanGrid) -> (r: bool)
    ensures
        r == (a == b),
{
    match (a, b) {
        (PlanGrid::Inferred, PlanGrid::Inferred) => true,
        (PlanGrid::Grid(x), PlanGrid::Grid(y)) => x.0 == y.0 && x.1 == y.1 && x.2 == y.2,
        (PlanGrid::ConstGrid(x), PlanGrid::ConstGrid(y)) => x.0 == y.0 && x.1 == y.1 && x.2 == y.2,
        _ => false,
    }
}

fn same_texts(a: &Vec<String>, b: &Vec<String>) -> (r: bool)
    ensures
        r == (text::texts(a@) == text::texts(b@)),
{
    if a.len() != b.len() {
        assert(text::texts(a@).len() != text::texts(b@).len());
        return false;
    }
    let mut i: usize = 0;
    while i < a.len()
        invariant
            i <= a.len(),
            a.len() == b.len(),
            forall|k: int| 0 <= k < i ==> (#[trigger] a@[k])@ == b@[k]@,
        decreases a.len() - i,
    {
        if a[i] != b[i] {
            assert(text::texts(a@)[i as int] != text::texts(b@)[i as int]);
            return false;
        }
        i += 1;
    }
    assert(text::texts(a@) =~= text::texts(b@));
    true
}

fn copy_texts(s: &Vec<String>) -> (r: Vec<String>)
    ensures
        text::texts(r@) == text::texts(s@),
{
    let mut out: Vec<String> = Vec::new();
    let mut i: usize = 0;
    while i < s.len()
        invariant
            i <= s.len(),
            text::texts(out@) == text::texts(s@.take(i as int)),
        decreases s.len() - i,
    {
        let t = s[i].clone();
        out.push(t);
        assert(text::texts(out@) =~= text::texts(s@.take(i as int)).push(s@[i as int]@));
        assert(text::texts(s@.take(i + 1)) =~= text::texts(s@.take(i as int)).push(s@[i as int]@));
        i += 1;
    }
    assert(s@.take(i as int) =~= s@);
    out
}

/// Appends the words of each text in turn.
fn push_texts_words(out: &mut Vec<usize>, g: &Vec<String>)
    ensures
        final(out)@ == old(out)@ + texts_words(text::texts(g@)),
{
    let ghost base = out@;
    let mut i: usize = 0;
    while i < g.len()
        invariant
            i <= g.len(),
            out@ == base + texts_words(text::texts(g@).take(i as int)),
        decreases g.len() - i,
    {
        key::push_text_words(out, g[i].as_str());
        assert(text::texts(g@).take(i + 1).drop_last() =~= text::texts(g@).take(i as int));
        assert(text::texts(g@).take(i + 1).last() == g@[i as int]@);
        assert(out@ =~= base + texts_words(text::texts(g@).take(i + 1)));
        i += 1;
    }
    assert(text::texts(g@).take(i as int) =~= text::texts(g@));
}

fn push_grid_words(out: &mut Vec<usize>, grid: PlanGrid)
    ensures
        final(out)@ == old(out)@ + grid_words(grid),
{
    match grid {
        PlanGrid::Inferred => {
            out.push(0);
        },
        PlanGrid::Grid(g) => {
            out.push(1);
            out.push(g.0 as usize);
            out.push(g.1 as usize);
            out.push(g.2 as usize);
        },
        PlanGrid::ConstGrid(g) => {
            out.push(2);
            out.push(g.0 as usize);
            out.push(g.1 as usize);
            out.push(g.2 as usize);
        },
    }
    assert(out@ =~= old(out)@ + grid_words(grid));
}

fn push_generics_words(out: &mut Vec<usize>, generics: &Option<Vec<String>>)
    ensures
        final(out)@ == old(out)@ + generics_words(
            match *generics {
                Some(g) => Some(text::texts(g@)),
                None => None,
            },
        ),
{
    match generics {
        Some(g) => {
            out.push(1);
            out.push(g.len());
            push_texts_words(out, g);
            assert(out@ =~= old(out)@ + generics_words(Some(text::texts(g@))));
        },
        None => {
            out.push(0);
        },
    }
}

fn push_compile_words(out: &mut Vec<usize>, options: &CompileOptions)
    ensures
        final(out)@ == old(out)@ + options@.words(),
{
    let flag: usize = if options.lineinfo {
        1
    } else {
        0
    };
    out.push(flag);
    out.push(options.others.len());
    push_texts_words(out, &options.others);
    assert(out@ =~= old(out)@ + options@.words());
}

impl View for PlanOptions {
    type V = OptionsModel;

    closed spec fn view(&self) -> OptionsModel {
        OptionsModel {
            grid: self.grid,
            generics: match self.generics {
                Some(g) => Some(text::texts(g@)),
                None => None,
            },
            compile_options: self.compile_options@,
        }
    }
}

impl PlanOptions {
    /// No options set: inferred grid and generics, default compile options.
    pub fn new() -> (r: PlanOptions)
        ensures
            r@.grid is Inferred,
            r@.generics is None,
            r@.compile_options == default_compile(),
    {
        PlanOptions {
            grid: PlanGrid::Inferred,
            generics: None,
            compile_options: CompileOptions::default(),
        }
    }

    /// An explicit launch grid. `(0, 0, 0)` means no grid: it is inferred.
    pub fn grid(self, grid: (u32, u32, u32)) -> (r: PlanOptions)
        ensures
            r@ == (OptionsModel { grid: explicit_grid(grid), ..self@ }),
    {
        let choice = if grid.0 == 0 && grid.1 == 0 && grid.2 == 0 {
            PlanGrid::Inferred
        } else {
            PlanGrid::Grid(grid)
        };
        PlanOptions {
            grid: choice,
            generics: self.generics,
            compile_options: self.compile_options,
        }
    }

    /// An explicit grid the kernel is also specialized on.
    pub fn const_grid(self, grid: (u32, u32, u32)) -> (r: PlanOptions)
        ensures
            r@ == (OptionsModel { grid: PlanGrid::ConstGrid(grid), ..self@ }),
    {
        PlanOptions {
            grid: PlanGrid::ConstGrid(grid),
            generics: self.generics,
            compile_options: self.compile_options,
        }
    }

    /// Explicit kernel generics.
    pub fn generics(self, generics: Vec<String>) -> (r: PlanOptions)
        ensures
            r@ == (OptionsModel { generics: Some(text::texts(generics@)), ..self@ }),
    {
        PlanOptions {
            grid: self.grid,
            generics: Some(generics),
            compile_options: self.compile_options,
        }
    }

    /// Compile options.
    pub fn compile_options(self, options: CompileOptions) -> (r: PlanOptions)
        ensures
            r@ == (OptionsModel { compile_options: options@, ..self@ }),
    {
        PlanOptions { grid: self.grid, generics: self.generics, compile_options: options }
    }

    /// The grid choice.
    pub fn get_grid(&self) -> (r: PlanGrid)
        ensures
            r == self@.grid,
    {
        self.grid
    }

    /// The explicit generics, if any.
    pub fn get_generics(&self) -> (r: Option<&[String]>)
        ensures
            match self@.generics {
                Some(g) => r matches Some(s) && text::texts(s@) == g,
                None => r is None,
            },
    {
        match &self.generics {
            Some(g) => Some(g.as_slice()),
            None => None,
        }
    }

    /// The compile options.
    pub fn get_compile_options(&self) -> (r: &CompileOptions)
        ensures
            r@ == self@.compile_options,
    {
        &self.compile_options
    }

    /// The grid as a launcher's fields, where `(0, 0, 0)` is "not set".
    pub fn launcher_grid(&self) -> (r: ((u32, u32, u32), bool))
        ensures
            r == launcher_fields(self@.grid),
    {
        match self.grid {
            PlanGrid::Inferred => ((0, 0, 0), false),
            PlanGrid::Grid(grid) => (grid, false),
            PlanGrid::ConstGrid(grid) => (grid, true),
        }
    }

    /// The options a launcher holds. A grid of `(0, 0, 0)` is its "not set".
    pub fn from_launcher(
        grid: (u32, u32, u32),
        const_grid: bool,
        generics: Option<Vec<String>>,
        compile_options: CompileOptions,
    ) -> (r: PlanOptions)
        ensures
            r@.grid == grid_of_fields(grid, const_grid),
            r@.generics == (match generics {
                Some(g) => Some(text::texts(g@)),
                None => None,
            }),
            r@.compile_options == compile_options@,
    {
        let choice = if const_grid {
            PlanGrid::ConstGrid(grid)
        } else if grid.0 == 0 && grid.1 == 0 && grid.2 == 0 {
            PlanGrid::Inferred
        } else {
            PlanGrid::Grid(grid)
        };
        PlanOptions { grid: choice, generics, compile_options }
    }

    /// Whether two sets of options are equal.
    pub fn same(&self, other: &PlanOptions) -> (r: bool)
        ensures
            r == (self@ == other@),
    {
        let generics = match (&self.generics, &other.generics) {
            (Some(a), Some(b)) => same_texts(a, b),
            (None, None) => true,
            _ => false,
        };
        same_grid(self.grid, other.grid) && generics && self.compile_options.same(
            &other.compile_options,
        )
    }

    /// Appends the words that the options add to a cache key.
    pub fn push_words(&self, out: &mut Vec<usize>)
        ensures
            final(out)@ == old(out)@ + self@.words(),
    {
        push_grid_words(out, self.grid);
        push_generics_words(out, &self.generics);
        push_compile_words(out, &self.compile_options);
        assert(out@ =~= old(out)@ + self@.words());
    }
}

impl Default for PlanOptions {
    fn default() -> (r: Self)
        ensures
            r@.grid is Inferred,
            r@.generics is None,
            r@.compile_options == default_compile(),
    {
        PlanOptions::new()
    }
}

impl Clone for PlanOptions {
    fn clone(&self) -> (r: Self)
        ensures
            r@ == self@,
    {
        let generics = match &self.generics {
            Some(g) => Some(copy_texts(g)),
            None => None,
        };
        PlanOptions { grid: self.grid, generics, compile_options: self.compile_options.clone() }
    }
}

/// A grid choice made by the builder methods: an explicit grid is not
/// `(0, 0, 0)`.
pub open spec fn built_grid(grid: PlanGrid) -> bool {
    grid matches PlanGrid::Grid(g) ==> g != (0u32, 0u32, 0u32)
}

/// A grid choice survives the launcher's fields.
pub proof fn grid_choice_round_trips(grid: PlanGrid)
    requires
        built_grid(grid),
    ensures
        ({
            let (g, c) = launcher_fields(grid);
            grid_of_fields(g, c) == grid
        }),
{
}

/// A launcher's fields survive a grid choice.
pub proof fn launcher_fields_round_trip(grid: (u32, u32, u32), const_grid: bool)
    ensures
        launcher_fields(grid_of_fields(grid, const_grid)) == (grid, const_grid),
        built_grid(grid_of_fields(grid, const_grid)),
{
}

/// A launcher's own settings: the grid, `(0, 0, 0)` where not set, whether the
/// kernel is specialized on it, the generics and the compile options.
#[derive(Debug)]
pub struct LauncherSettings {
    grid: (u32, u32, u32),
    const_grid: bool,
    generics: Option<Vec<String>>,
    compile_options: CompileOptions,
}

/// The contents of [`LauncherSettings`].
#[verifier::ext_equal]
pub struct SettingsModel {
    pub grid: (u32, u32, u32),
    pub const_grid: bool,
    pub generics: Option<Seq<Seq<char>>>,
    pub compile_options: CompileModel,
}

impl View for LauncherSettings {
    type V = SettingsModel;

    closed spec fn view(&self) -> SettingsModel {
        SettingsModel {
            grid: self.grid,
            const_grid: self.const_grid,
            generics: match self.generics {
                Some(g) => Some(text::texts(g@)),
                None => None,
            },
            compile_options: self.compile_options@,
        }
    }
}

impl LauncherSettings {
    /// Nothing set.
    pub fn new() -> (r: LauncherSettings)
        ensures
            r@.grid == (0u32, 0u32, 0u32),
            !r@.const_grid,
            r@.generics is None,
            r@.compile_options == default_compile(),
    {
        LauncherSettings {
            grid: (0, 0, 0),
            const_grid: false,
            generics: None,
            compile_options: CompileOptions::default(),
        }
    }

    /// Sets an explicit grid.
    pub fn grid(self, grid: (u32, u32, u32)) -> (r: LauncherSettings)
        ensures
            r@ == (SettingsModel { grid, const_grid: false, ..self@ }),
    {
        LauncherSettings {
            grid,
            const_grid: false,
            generics: self.generics,
            compile_options: self.compile_options,
        }
    }

    /// Sets an explicit grid that the kernel is specialized on.
    pub fn const_grid(self, grid: (u32, u32, u32)) -> (r: LauncherSettings)
        ensures
            r@ == (SettingsModel { grid, const_grid: true, ..self@ }),
    {
        LauncherSettings {
            grid,
            const_grid: true,
            generics: self.generics,
            compile_options: self.compile_options,
        }
    }

    /// Sets explicit generics.
    pub fn generics(self, generics: Vec<String>) -> (r: LauncherSettings)
        ensures
            r@ == (SettingsModel { generics: Some(text::texts(generics@)), ..self@ }),
    {
        LauncherSettings {
            grid: self.grid,
            const_grid: self.const_grid,
            generics: Some(generics),
            compile_options: self.compile_options,
        }
    }

    /// Sets the compile options.
    pub fn compile_options(self, options: CompileOptions) -> (r: LauncherSettings)
        ensures
            r@ == (SettingsModel { compile_options: options@, ..self@ }),
    {
        LauncherSettings {
            grid: self.grid,
            const_grid: self.const_grid,
            generics: self.generics,
            compile_options: options,
        }
    }

    /// The explicit grid, `(0, 0, 0)` where not set.
    pub fn get_launch_grid(&self) -> (r: (u32, u32, u32))
        ensures
            r == self@.grid,
    {
        self.grid
    }

    /// Replaces the grid, generics and compile options with exactly `options`,
    /// discarding any set before.
    pub fn with_options(self, options: &PlanOptions) -> (r: LauncherSettings)
        ensures
            r@ == (SettingsModel {
                grid: launcher_fields(options@.grid).0,
                const_grid: launcher_fields(options@.grid).1,
                generics: options@.generics,
                compile_options: options@.compile_options,
            }),
    {
        let copy = options.clone();
        let (grid, const_grid) = copy.launcher_grid();
        LauncherSettings {
            grid,
            const_grid,
            generics: copy.generics,
            compile_options: copy.compile_options,
        }
    }

    /// The options that a plan of this launcher records.
    pub fn into_options(self) -> (r: PlanOptions)
        ensures
            r@ == recorded_options(self@),
    {
        PlanOptions::from_launcher(
            self.grid,
            self.const_grid,
            self.generics,
            self.compile_options,
        )
    }
}

/// The options that a plan records of a launcher's settings.
pub open spec fn recorded_options(settings: SettingsModel) -> OptionsModel {
    OptionsModel {
        grid: grid_of_fields(settings.grid, settings.const_grid),
        generics: settings.generics,
        compile_options: settings.compile_options,
    }
}

/// A plan of a launcher that was given `options` records exactly those options.
pub proof fn a_plan_records_the_options_it_was_given(options: OptionsModel)
    requires
        built_grid(options.grid),
    ensures
        recorded_options(
            SettingsModel {
                grid: launcher_fields(options.grid).0,
                const_grid: launcher_fields(options.grid).1,
                generics: options.generics,
                compile_options: options.compile_options,
            },
        ) == options,
{
    grid_choice_round_trips(options.grid);
}

/// An explicit grid is recorded as given, unless it is the grid of no blocks at all,
/// which leaves the grid to be inferred.
pub proof fn an_explicit_grid_is_recorded_as_given(grid: (u32, u32, u32))
    ensures
        explicit_grid(grid) is Inferred <==> grid.0 == 0 && grid.1 == 0 && grid.2 == 0,
        !(explicit_grid(grid) is ConstGrid),
        explicit_grid(grid) matches PlanGrid::Grid(g) ==> g == grid,
        grid_of_fields(grid, true) == PlanGrid::ConstGrid(grid),
        built_grid(PlanGrid::Inferred),
        built_grid(PlanGrid::Grid(grid)) <==> grid.0 != 0 || grid.1 != 0 || grid.2 != 0,
{
}

/// Without options the compiler adds no line information and gets no flags.
pub proof fn compiler_options_default_to_none()
    ensures
        !default_compile().lineinfo,
        default_compile().others.len() == 0,
{
}

/// The length of every text fits a word.
pub open spec fn countable_texts(s: Seq<Seq<char>>) -> bool {
    &&& s.len() <= usize::MAX
    &&& forall|i: int| 0 <= i < s.len() ==> (#[trigger] s[i]).len() <= usize::MAX
}

impl OptionsModel {
    /// The length of every list and text fits a word.
    pub open spec fn countable(self) -> bool {
        &&& self.generics matches Some(g) ==> countable_texts(g)
        &&& countable_texts(self.compile_options.others)
    }
}

proof fn lemma_texts_front(s: Seq<Seq<char>>)
    requires
        s.len() > 0,
    ensures
        texts_words(s) == key::text_words(s[0]) + texts_words(s.skip(1)),
    decreases s.len(),
{
    if s.len() == 1 {
        assert(s.drop_last() =~= Seq::empty());
        assert(s.skip(1) =~= Seq::empty());
        assert(texts_words(s) =~= key::text_words(s[0]) + texts_words(s.skip(1)));
    } else {
        lemma_texts_front(s.drop_last());
        assert(s.drop_last().skip(1) =~= s.skip(1).drop_last());
        assert(s.skip(1).last() == s.last());
        assert(texts_words(s) =~= key::text_words(s[0]) + (texts_words(s.skip(1).drop_last())
            + key::text_words(s.last())));
    }
}

/// Lists of as many texts are told apart by their words, whatever follows them.
pub proof fn lists_of_texts_are_told_apart(
    a: Seq<Seq<char>>,
    b: Seq<Seq<char>>,
    x: Seq<usize>,
    y: Seq<usize>,
)
    requires
        a.len() == b.len(),
        countable_texts(a),
        countable_texts(b),
        texts_words(a) + x == texts_words(b) + y,
    ensures
        a == b,
        x == y,
    decreases a.len(),
{
    if a.len() == 0 {
        assert(a =~= b);
        assert(texts_words(a) + x =~= x);
        assert(texts_words(b) + y =~= y);
    } else {
        lemma_texts_front(a);
        lemma_texts_front(b);
        let (s, t) = (a.skip(1), b.skip(1));
        assert forall|i: int| 0 <= i < s.len() implies (#[trigger] s[i]).len() <= usize::MAX by {
            assert(s[i] == a[i + 1]);
        }
        assert forall|i: int| 0 <= i < t.len() implies (#[trigger] t[i]).len() <= usize::MAX by {
            assert(t[i] == b[i + 1]);
        }
        assert(texts_words(a) + x =~= key::text_words(a[0]) + (texts_words(s) + x));
        assert(texts_words(b) + y =~= key::text_words(b[0]) + (texts_words(t) + y));
        assert(a[0].len() <= usize::MAX && b[0].len() <= usize::MAX);
        key::texts_are_told_apart(a[0], b[0], texts_words(s) + x, texts_words(t) + y);
        lists_of_texts_are_told_apart(s, t, x, y);
        assert forall|i: int| 0 <= i < a.len() implies #[trigger] a[i] == b[i] by {
            if i > 0 {
                assert(s[i - 1] == t[i - 1]);
            }
        }
        assert(a =~= b);
    }
}

/// Grid choices are told apart by their words, whatever follows them.
pub proof fn grid_choices_are_told_apart(a: PlanGrid, b: PlanGrid, x: Seq<usize>, y: Seq<usize>)
    requires
        grid_words(a) + x == grid_words(b) + y,
    ensures
        a == b,
        x == y,
{
    let (wa, wb) = (grid_words(a), grid_words(b));
    assert((wa + x)[0] == wa[0] && (wb + y)[0] == wb[0]);
    key::lemma_same_front(wa, wb, x, y);
    if wa.len() == 4 {
        assert(wa[1] == wb[1] && wa[2] == wb[2] && wa[3] == wb[3]);
    }
}

/// Choices of generics are told apart by their words, whatever follows them.
pub proof fn choices_of_generics_are_told_apart(
    a: Option<Seq<Seq<char>>>,
    b: Option<Seq<Seq<char>>>,
    x: Seq<usize>,
    y: Seq<usize>,
)
    requires
        a matches Some(g) ==> countable_texts(g),
        b matches Some(g) ==> countable_texts(g),
        generics_words(a) + x == generics_words(b) + y,
    ensures
        a == b,
        x == y,
{
    assert(generics_words(a)[0] == if a is Some {
        1usize
    } else {
        0usize
    });
    assert(generics_words(b)[0] == if b is Some {
        1usize
    } else {
        0usize
    });
    assert((generics_words(a) + x)[0] == generics_words(a)[0]);
    assert((generics_words(b) + y)[0] == generics_words(b)[0]);
    match (a, b) {
        (Some(g), Some(h)) => {
            let (hg, hh) = (seq![1usize, g.len() as usize], seq![1usize, h.len() as usize]);
            key::lemma_joined_words(hg, texts_words(g), x);
            key::lemma_joined_words(hh, texts_words(h), y);
            key::lemma_same_front(hg, hh, texts_words(g) + x, texts_words(h) + y);
            assert(hg[1] == hh[1]);
            lists_of_texts_are_told_apart(g, h, x, y);
        },
        _ => {
            key::lemma_same_front(generics_words(a), generics_words(b), x, y);
        },
    }
}

/// Compiler options are told apart by their words, whatever follows them.
pub proof fn compiler_options_are_told_apart(
    a: CompileModel,
    b: CompileModel,
    x: Seq<usize>,
    y: Seq<usize>,
)
    requires
        countable_texts(a.others),
        countable_texts(b.others),
        a.words() + x == b.words() + y,
    ensures
        a == b,
        x == y,
{
    let (s, t) = (a.others, b.others);
    let (hs, ht) = (
        seq![key::flag_word(a.lineinfo), s.len() as usize],
        seq![key::flag_word(b.lineinfo), t.len() as usize],
    );
    key::lemma_joined_words(hs, texts_words(s), x);
    key::lemma_joined_words(ht, texts_words(t), y);
    key::lemma_same_front(hs, ht, texts_words(s) + x, texts_words(t) + y);
    assert(hs[0] == ht[0] && hs[1] == ht[1]);
    key::flags_and_dimensions_are_told_apart(a.lineinfo, b.lineinfo, 0, 0);
    lists_of_texts_are_told_apart(s, t, x, y);
}

/// Options are told apart by their words, whatever follows them: the grid, the generics
/// and the compiler's options all count.
pub proof fn options_are_told_apart(
    a: OptionsModel,
    b: OptionsModel,
    x: Seq<usize>,
    y: Seq<usize>,
)
    requires
        a.countable(),
        b.countable(),
        a.words() + x == b.words() + y,
    ensures
        a == b,
        x == y,
{
    let (ca, cb) = (a.compile_options.words() + x, b.compile_options.words() + y);
    let (ga, gb) = (generics_words(a.generics) + ca, generics_words(b.generics) + cb);
    key::lemma_joined_words(
        grid_words(a.grid) + generics_words(a.generics),
        a.compile_options.words(),
        x,
    );
    key::lemma_joined_words(grid_words(a.grid), generics_words(a.generics), ca);
    key::lemma_joined_words(
        grid_words(b.grid) + generics_words(b.generics),
        b.compile_options.words(),
        y,
    );
    key::lemma_joined_words(grid_words(b.grid), generics_words(b.generics), cb);
    grid_choices_are_told_apart(a.grid, b.grid, ga, gb);
    choices_of_generics_are_told_apart(a.generics, b.generics, ca, cb);
    compiler_options_are_told_apart(a.compile_options, b.compile_options, x, y);
}

} // verus!
