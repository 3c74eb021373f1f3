//! Kernel launch builder with argument marshalling.
use std::sync::Arc;
use vstd::prelude::*;

use crate::error::{DeviceError, LaunchFault};
use crate::scalar::{PlanScalar, SlotValue};
use crate::text;

verus! {

/// Grid and block dimensions and shared memory of a launch.
#[derive(Debug, Clone, Copy, PartialEq, Eq)]
pub struct LaunchConfig {
    pub grid_dim: (u32, u32, u32),
    pub block_dim: (u32, u32, u32),
    pub shared_mem_bytes: u32,
}

/// Type-erased kernel argument values, stored inline in 16-byte slots: one slot
/// per argument, in push order.
#[derive(Debug)]
pub struct KernelArgStorage {
    values: Vec<u128>,
    offsets: Vec<usize>,
}

impl KernelArgStorage {
    /// The slots.
    pub closed spec fn slots(self) -> Seq<u128> {
        self.values@
    }

    /// The slot index of each argument.
    pub closed spec fn starts(self) -> Seq<usize> {
        self.offsets@
    }

    /// Argument `i` is slot `i`.
    pub open spec fn wf(self) -> bool {
        &&& self.starts().len() == self.slots().len()
        &&& forall|i: int| 0 <= i < self.starts().len() ==> #[trigger] self.starts()[i] == i
    }

    #[verifier::type_invariant]
    spec fn valid(self) -> bool {
        self.wf()
    }

    /// Storage without arguments.
    pub fn new() -> (r: KernelArgStorage)
        ensures
            r.wf(),
            r.slots() == Seq::<u128>::empty(),
    {
        KernelArgStorage { values: Vec::new(), offsets: Vec::new() }
    }

    /// Copies `arg` into the next slot.
    pub fn push<T: SlotValue>(&mut self, arg: T)
        ensures
            final(self).wf(),
            final(self).slots() == old(self).slots().push(arg.slot()),
    {
        proof {
            use_type_invariant(&*self);
        }
        let mut stored = KernelArgStorage::new();
        std::mem::swap(&mut stored, self);
        let KernelArgStorage { mut values, mut offsets } = stored;
        let offset = values.len();
        values.push(arg.to_slot());
        offsets.push(offset);
        assert forall|i: int| 0 <= i < offsets@.len() implies #[trigger] offsets@[i] == i by {
            if i < old(self).starts().len() {
                assert(old(self).starts()[i] == i);
            }
        }
        *self = KernelArgStorage { values, offsets };
    }

    /// How many arguments are stored.
    pub fn len(&self) -> (r: usize)
        ensures
            r == self.slots().len(),
    {
        proof {
            use_type_invariant(self);
        }
        self.offsets.len()
    }

    /// Whether no argument is stored.
    pub fn is_empty(&self) -> (r: bool)
        ensures
            r == (self.slots().len() == 0),
    {
        proof {
            use_type_invariant(self);
        }
        self.offsets.len() == 0
    }

    /// The value slots in push order, as the parameter pointers of a launch
    /// address them.
    pub fn as_slots(&self) -> (r: Vec<u128>)
        ensures
            r@ == self.slots(),
    {
        proof {
            use_type_invariant(self);
        }
        let mut out: Vec<u128> = Vec::new();
        let mut i: usize = 0;
        while i < self.offsets.len()
            invariant
                self.wf(),
                i <= self.offsets.len(),
                out@ == self.slots().take(i as int),
            decreases self.offsets.len() - i,
        {
            assert(self.starts()[i as int] == i);
            out.push(self.values[self.offsets[i]]);
            assert(self.slots().take(i + 1) =~= self.slots().take(i as int).push(
                self.slots()[i as int],
            ));
            i += 1;
        }
        assert(self.slots().take(i as int) =~= self.slots());
        out
    }
}

impl Default for KernelArgStorage {
    fn default() -> (r: Self)
        ensures
            r.wf(),
            r.slots() == Seq::<u128>::empty(),
    {
        KernelArgStorage::new()
    }
}

/// A builder for launching a kernel on a stream. `F` is the compiled function.
#[derive(Debug)]
pub struct AsyncKernelLaunch<F> {
    func: F,
    args: KernelArgStorage,
    cfg: Option<LaunchConfig>,
    programmatic_dependent_launch: bool,
}

/// A resolved launch taken apart: the function, the launch configuration, and
/// the argument values laid out exactly as the driver gets them. Argument `i`
/// starts at slot `offsets[i]`.
#[derive(Debug)]
pub struct KernelLaunchParts<F> {
    pub func: F,
    pub cfg: Option<LaunchConfig>,
    pub programmatic_dependent_launch: bool,
    pub values: Vec<u128>,
    pub offsets: Vec<usize>,
}

/// The contents of [`KernelLaunchParts`].
#[verifier::ext_equal]
pub struct PartsModel<F> {
    pub func: F,
    pub cfg: Option<LaunchConfig>,
    pub dependent: bool,
    pub values: Seq<u128>,
    pub offsets: Seq<usize>,
}

impl<F> View for KernelLaunchParts<F> {
    type V = PartsModel<F>;

    open spec fn view(&self) -> PartsModel<F> {
        PartsModel {
            func: self.func,
            cfg: self.cfg,
            dependent: self.programmatic_dependent_launch,
            values: self.values@,
            offsets: self.offsets@,
        }
    }
}

/// What a launch hands to the driver.
#[derive(Debug)]
pub struct DriverLaunch<F> {
    pub func: F,
    pub cfg: LaunchConfig,
    /// Submit with programmatic dependent launch.
    pub dependent: bool,
    /// The argument values, in order.
    pub args: Vec<u128>,
}

impl<F> AsyncKernelLaunch<F> {
    /// The argument values pushed so far.
    pub closed spec fn arguments(self) -> Seq<u128> {
        self.args.slots()
    }

    /// The function that is launched.
    pub closed spec fn function(self) -> F {
        self.func
    }

    pub closed spec fn config(self) -> Option<LaunchConfig> {
        self.cfg
    }

    pub closed spec fn dependent(self) -> bool {
        self.programmatic_dependent_launch
    }

    /// The launch taken apart: argument `i` is slot `i`.
    pub open spec fn parts(self) -> PartsModel<F> {
        PartsModel {
            func: self.function(),
            cfg: self.config(),
            dependent: self.dependent(),
            values: self.arguments(),
            offsets: Seq::new(self.arguments().len(), |i: int| i as usize),
        }
    }

    /// A launch of `func` without arguments or configuration.
    pub fn new(func: F) -> (r: AsyncKernelLaunch<F>)
        ensures
            r.function() == func,
            r.arguments() == Seq::<u128>::empty(),
            r.config() is None,
            !r.dependent(),
    {
        AsyncKernelLaunch {
            func,
            args: KernelArgStorage::new(),
            cfg: None,
            programmatic_dependent_launch: false,
        }
    }

    /// The function that is launched.
    pub fn func(&self) -> (r: &F)
        ensures
            *r == self.function(),
    {
        &self.func
    }

    /// Pushes one slot value.
    fn push_arg_raw<T: SlotValue>(&mut self, arg: T) -> (r: &mut Self)
        ensures
            r.function() == old(self).function(),
            r.config() == old(self).config(),
            r.dependent() == old(self).dependent(),
            r.arguments() == old(self).arguments().push(arg.slot()),
            *final(self) == *final(r),
    {
        self.args.push(arg);
        self
    }

    /// Pushes a kernel argument by value.
    pub fn push_arg<T: KernelArgument>(&mut self, arg: T) -> (r: &mut Self)
        ensures
            r.function() == old(self).function(),
            r.config() == old(self).config(),
            r.dependent() == old(self).dependent(),
            r.arguments() == old(self).arguments().push(arg.argument()),
            *final(self) == *final(r),
    {
        arg.push_arg(self);
        self
    }

    /// Pushes a kernel argument from an `Arc` reference.
    pub fn push_arg_arc<T: ArcKernelArgument>(&mut self, arg: &Arc<T>) -> (r: &mut Self)
        ensures
            (**arg).pushes(*old(self), *r),
            *final(self) == *final(r),
    {
        arg.push_arg_arc(self);
        self
    }

    /// Pushes a device pointer as a kernel argument.
    pub fn push_device_ptr(&mut self, ptr: u64) -> (r: &mut Self)
        ensures
            r.function() == old(self).function(),
            r.config() == old(self).config(),
            r.dependent() == old(self).dependent(),
            r.arguments() == old(self).arguments().push(ptr as u128),
            *final(self) == *final(r),
    {
        self.push_arg_raw(ptr)
    }

    /// Sets the grid and block dimensions and shared memory of the launch.
    pub fn set_launch_config(&mut self, cfg: LaunchConfig) -> (r: &mut Self)
        ensures
            r.function() == old(self).function(),
            r.config() == Some(cfg),
            r.dependent() == old(self).dependent(),
            r.arguments() == old(self).arguments(),
            *final(self) == *final(r),
    {
        self.cfg = Some(cfg);
        self
    }

    /// Enables programmatic dependent launch for this submission.
    pub fn programmatic_dependent_launch(&mut self) -> (r: &mut Self)
        ensures
            r.function() == old(self).function(),
            r.config() == old(self).config(),
            r.dependent(),
            r.arguments() == old(self).arguments(),
            *final(self) == *final(r),
    {
        self.programmatic_dependent_launch = true;
        self
    }

    /// Whether resolving the launch depends on the device's architecture: only a
    /// configured launch with programmatic dependent launch does.
    pub fn needs_architecture(&self) -> (r: bool)
        ensures
            r == (self.config() is Some && self.dependent()),
    {
        self.cfg.is_some() && self.programmatic_dependent_launch
    }

    /// Resolves the launch for a device of `architecture`: what the driver is
    /// handed, or the refusal of a launch without a configuration or of a
    /// dependent launch on a device before `sm_90`.
    pub fn launch(self, architecture: &str) -> (r: Result<DriverLaunch<F>, DeviceError>)
        ensures
            match self.config() {
                None => r == Err::<DriverLaunch<F>, DeviceError>(
                    DeviceError::Launch(LaunchFault::NoLaunchConfig),
                ),
                Some(cfg) => if self.dependent() && sm_version(architecture@) < 90 {
                    r matches Err(
                        DeviceError::Launch(LaunchFault::DependentLaunchTarget { architecture: a }),
                    ) && a@ == architecture@
                } else {
                    r matches Ok(launch) && launch.func == self.function() && launch.cfg == cfg
                        && launch.dependent == self.dependent() && launch.args@ == self.arguments()
                },
            },
    {
        let cfg = match self.cfg {
            Some(cfg) => cfg,
            None => {
                return Err(DeviceError::Launch(LaunchFault::NoLaunchConfig));
            },
        };
        if self.programmatic_dependent_launch && parse_sm(architecture) < 90 {
            return Err(
                DeviceError::Launch(
                    LaunchFault::DependentLaunchTarget { architecture: architecture.to_owned() },
                ),
            );
        }
        let args = self.args.as_slots();
        Ok(
            DriverLaunch {
                func: self.func,
                cfg,
                dependent: self.programmatic_dependent_launch,
                args,
            },
        )
    }

    /// How many driver arguments have been pushed: the index the next push gets.
    pub fn arg_count(&self) -> (r: usize)
        ensures
            r == self.arguments().len(),
    {
        self.args.len()
    }

    /// Takes the launch apart without submitting it.
    pub fn into_parts(self) -> (r: KernelLaunchParts<F>)
        ensures
            r@ == self.parts(),
    {
        let args = self.args;
        proof {
            use_type_invariant(&args);
        }
        assert forall|i: int| 0 <= i < args.offsets@.len() implies #[trigger] args.offsets@[i]
            == i by {
            assert(args.starts()[i] == i);
        }
        assert(args.offsets@ =~= Seq::new(self.arguments().len(), |i: int| i as usize));
        KernelLaunchParts {
            func: self.func,
            cfg: self.cfg,
            programmatic_dependent_launch: self.programmatic_dependent_launch,
            values: args.values,
            offsets: args.offsets,
        }
    }
}

/// A kernel argument that can be pushed from an `Arc` reference.
pub trait ArcKernelArgument: Sized {
    /// What pushing the argument makes of a launch. A type that does not say
    /// promises nothing.
    open spec fn pushes<F>(
        self,
        before: AsyncKernelLaunch<F>,
        after: AsyncKernelLaunch<F>,
    ) -> bool {
        true
    }

    /// Pushes the argument.
    fn push_arg_arc<F>(self: &Arc<Self>, launcher: &mut AsyncKernelLaunch<F>)
        ensures
            (**self).pushes(*old(launcher), *final(launcher)),
    ;
}

/// A kernel argument that can be pushed by value into a launch.
pub trait KernelArgument: Sized {
    /// The slot value of the argument.
    spec fn argument(self) -> u128;

    /// Pushes the argument.
    fn push_arg<F>(self, launcher: &mut AsyncKernelLaunch<F>)
        ensures
            final(launcher).function() == old(launcher).function(),
            final(launcher).config() == old(launcher).config(),
            final(launcher).dependent() == old(launcher).dependent(),
            final(launcher).arguments() == old(launcher).arguments().push(self.argument()),
    ;
}

impl<T: PlanScalar> KernelArgument for T {
    open spec fn argument(self) -> u128 {
        self.slot()
    }

    fn push_arg<F>(self, launcher: &mut AsyncKernelLaunch<F>) {
        launcher.push_arg_raw(self);
    }
}

/// `s` without the trailing `a` and `f` characters.
pub open spec fn trim_suffix(s: Seq<char>) -> Seq<char>
    decreases s.len(),
{
    if s.len() > 0 && (s.last() == 'a' || s.last() == 'f') {
        trim_suffix(s.drop_last())
    } else {
        s
    }
}

/// Whether a character is an ASCII digit.
pub open spec fn is_digit(c: char) -> bool {
    '0' <= c <= '9'
}

/// The number that decimal digits spell.
pub open spec fn digits_value(s: Seq<char>) -> int
    decreases s.len(),
{
    if s.len() == 0 {
        0
    } else {
        digits_value(s.drop_last()) * 10 + (s.last() as int - '0' as int)
    }
}

/// The `u32` that a text of digits spells.
pub open spec fn digits_u32(digits: Seq<char>) -> Option<int> {
    if digits.len() > 0 && (forall|i: int| 0 <= i < digits.len() ==> is_digit(#[trigger] digits[i]))
        && digits_value(digits) <= u32::MAX {
        Some(digits_value(digits))
    } else {
        None
    }
}

/// The `u32` that a text spells: digits after an optional plus sign.
pub open spec fn parse_u32_spec(s: Seq<char>) -> Option<int> {
    if s.len() > 0 && s[0] == '+' {
        digits_u32(s.skip(1))
    } else {
        digits_u32(s)
    }
}

/// The version number of an architecture name: `sm_` and a number, then any
/// `a` and `f` suffixes. Any other name counts as 0.
pub open spec fn sm_version(name: Seq<char>) -> int {
    if name.len() >= 3 && name.take(3) == seq!['s', 'm', '_'] {
        match parse_u32_spec(trim_suffix(name.skip(3))) {
            Some(n) => n,
            None => 0,
        }
    } else {
        0
    }
}

proof fn lemma_digits_monotone(s: Seq<char>, n: int)
    requires
        0 <= n <= s.len(),
        forall|i: int| 0 <= i < s.len() ==> is_digit(#[trigger] s[i]),
    ensures
        0 <= digits_value(s.take(n)) <= digits_value(s),
    decreases s.len() - n,
{
    if n == s.len() {
        assert(s.take(n) =~= s);
        lemma_digits_nonnegative(s);
    } else {
        lemma_digits_monotone(s, n + 1);
        assert(s.take(n + 1).drop_last() =~= s.take(n));
        assert(is_digit(s[n]));
        lemma_digits_nonnegative(s.take(n));
    }
}

proof fn lemma_digits_nonnegative(s: Seq<char>)
    requires
        forall|i: int| 0 <= i < s.len() ==> is_digit(#[trigger] s[i]),
    ensures
        digits_value(s) >= 0,
    decreases s.len(),
{
    if s.len() > 0 {
        assert(is_digit(s.last()));
        assert forall|i: int| 0 <= i < s.drop_last().len() implies is_digit(
            #[trigger] s.drop_last()[i],
        ) by {
            assert(is_digit(s[i]));
        }
        lemma_digits_nonnegative(s.drop_last());
    }
}

/// The value of the digits in `chars[from..to]`, if they are a `u32`.
fn parse_digits(chars: &Vec<char>, from: usize, to: usize) -> (r: Option<u32>)
    requires
        from <= to <= chars@.len(),
    ensures
        match digits_u32(chars@.subrange(from as int, to as int)) {
            Some(n) => r == Some(n as u32) && 0 <= n,
            None => r is None,
        },
{
    let ghost digits = chars@.subrange(from as int, to as int);
    if from == to {
        return None;
    }
    let mut value: u32 = 0;
    let mut i: usize = from;
    while i < to
        invariant
            from <= i <= to,
            to <= chars@.len(),
            digits == chars@.subrange(from as int, to as int),
            forall|k: int| 0 <= k < i - from ==> is_digit(#[trigger] digits[k]),
            value == digits_value(digits.take(i - from)),
        decreases to - i,
    {
        let c = chars[i];
        let ghost k = i - from;
        assert(digits[k] == c);
        if c < '0' || c > '9' {
            assert(!is_digit(digits[k]));
            return None;
        }
        let d = c as u32 - '0' as u32;
        assert(digits.take(k + 1).drop_last() =~= digits.take(k));
        let next = match value.checked_mul(10) {
            Some(tens) => tens.checked_add(d),
            None => None,
        };
        match next {
            Some(n) => {
                value = n;
            },
            None => {
                proof {
                    if forall|i: int| 0 <= i < digits.len() ==> is_digit(#[trigger] digits[i]) {
                        lemma_digits_monotone(digits, k + 1);
                        assert(digits_value(digits.take(k + 1)) > u32::MAX);
                    }
                }
                return None;
            },
        }
        i += 1;
    }
    assert(digits.take(to - from) =~= digits);
    assert(digits_u32(digits) == Some(value as int));
    Some(value)
}

/// The version number of an architecture name, 0 for a name of another form.
fn parse_sm(architecture: &str) -> (r: u32)
    ensures
        r == sm_version(architecture@),
{
    let chars = text::chars_of(architecture);
    let ghost name = architecture@;
    if chars.len() < 3 || chars[0] != 's' || chars[1] != 'm' || chars[2] != '_' {
        proof {
            if name.len() >= 3 && name.take(3) == seq!['s', 'm', '_'] {
                assert(name.take(3)[0] == name[0] && name.take(3)[1] == name[1] && name.take(3)[2]
                    == name[2]);
                assert(seq!['s', 'm', '_'][0] == 's' && seq!['s', 'm', '_'][1] == 'm' && seq![
                    's',
                    'm',
                    '_',
                ][2] == '_');
            }
        }
        return 0;
    }
    assert(name.take(3) =~= seq!['s', 'm', '_']);
    let mut end: usize = chars.len();
    assert(name.subrange(3, end as int) =~= name.skip(3));
    while end > 3 && (chars[end - 1] == 'a' || chars[end - 1] == 'f')
        invariant
            3 <= end <= chars@.len(),
            chars@ == name,
            trim_suffix(name.skip(3)) == trim_suffix(name.subrange(3, end as int)),
        decreases end,
    {
        assert(name.subrange(3, end as int).drop_last() =~= name.subrange(3, end - 1));
        end -= 1;
    }
    let ghost body = name.subrange(3, end as int);
    assert(trim_suffix(body) == body);
    let from: usize = if end > 3 && chars[3] == '+' {
        4
    } else {
        3
    };
    let parsed = parse_digits(&chars, from, end);
    proof {
        let digits = chars@.subrange(from as int, end as int);
        if from == 4 {
            assert(body[0] == '+');
            assert(digits =~= body.skip(1));
        } else {
            assert(!(body.len() > 0 && body[0] == '+'));
            assert(digits =~= body);
        }
        assert(match parsed {
            Some(n) => parse_u32_spec(body) == Some(n as int),
            None => parse_u32_spec(body) is None,
        });
    }
    match parsed {
        Some(n) => n,
        None => 0,
    }
}

/// The value of digits is ten times that of the digits before the last, plus the last;
/// the decimal text of a number has the number as its value.
pub proof fn digits_spell_the_number_they_print(n: nat)
    ensures
        digits_value(text::decimal(n)) == n,
        text::decimal(n).len() > 0,
        forall|i: int|
            0 <= i < text::decimal(n).len() ==> is_digit(
                #[trigger] text::decimal(n)[i],
            ),
    decreases n,
{
    let d = text::decimal(n);
    if n < 10 {
        assert(d.drop_last() =~= Seq::empty());
        assert(digits_value(d.drop_last()) == 0);
    } else {
        let m = (n / 10) as nat;
        digits_spell_the_number_they_print(m);
        let front = text::decimal(m);
        assert(d.drop_last() =~= front);
        assert forall|i: int| 0 <= i < d.len() implies is_digit(#[trigger] d[i]) by {
            if i < front.len() {
                assert(d[i] == front[i]);
            }
        }
    }
}

/// A number's decimal text, with or without a plus sign, is read back as the number,
/// where it fits `u32`; no larger number is read.
pub proof fn printed_numbers_are_read_back(n: nat)
    ensures
        n <= u32::MAX ==> parse_u32_spec(text::decimal(n)) == Some(n as int),
        n <= u32::MAX ==> parse_u32_spec(seq!['+'] + text::decimal(n)) == Some(n as int),
        n > u32::MAX ==> parse_u32_spec(text::decimal(n)) is None,
{
    digits_spell_the_number_they_print(n);
    let d = text::decimal(n);
    assert(is_digit(d[0]));
    assert((seq!['+'] + d).skip(1) =~= d);
}

/// No text is read as a number that is empty, or that has anything but digits after an
/// optional plus sign.
pub proof fn other_texts_are_no_numbers(s: Seq<char>, i: int)
    requires
        s.len() == 0 || (s.len() == 1 && s[0] == '+') || (0 <= i < s.len() && !('0' <= s[i] <= '9')
            && (i > 0 || s[0] != '+')),
    ensures
        parse_u32_spec(s) is None,
{
    if s.len() > 0 && s[0] == '+' && s.len() > 1 {
        assert(s.skip(1)[i - 1] == s[i]);
        assert(!is_digit(s.skip(1)[i - 1]));
    } else if s.len() > 1 || (s.len() == 1 && s[0] != '+') {
        assert(!is_digit(s[i]));
    }
}

/// Trimming takes off every `a` and `f` at the end, and nothing else.
pub proof fn trimming_takes_off_the_whole_suffix(body: Seq<char>, suffix: Seq<char>)
    requires
        body.len() == 0 || (body.last() != 'a' && body.last() != 'f'),
        forall|i: int|
            0 <= i < suffix.len() ==> #[trigger] suffix[i] == 'a' || suffix[i] == 'f',
    ensures
        trim_suffix(body + suffix) == body,
    decreases suffix.len(),
{
    let s = body + suffix;
    if suffix.len() == 0 {
        assert(s =~= body);
    } else {
        assert(s.last() == suffix[suffix.len() - 1]);
        assert(s.drop_last() =~= body + suffix.drop_last());
        trimming_takes_off_the_whole_suffix(body, suffix.drop_last());
    }
}

/// An architecture is named `sm_`, a number and any suffixes of `a` and `f`: its version
/// is the number, 0 where it does not fit `u32`.
pub proof fn an_architectures_version_is_its_number(n: nat, suffix: Seq<char>)
    requires
        forall|i: int|
            0 <= i < suffix.len() ==> #[trigger] suffix[i] == 'a' || suffix[i] == 'f',
    ensures
        sm_version(seq!['s', 'm', '_'] + text::decimal(n) + suffix) == if n <= u32::MAX {
            n as int
        } else {
            0
        },
{
    let d = text::decimal(n);
    let name = seq!['s', 'm', '_'] + d + suffix;
    digits_spell_the_number_they_print(n);
    assert(is_digit(d[d.len() - 1]));
    assert(name.take(3) =~= seq!['s', 'm', '_']);
    assert(name.skip(3) =~= d + suffix);
    trimming_takes_off_the_whole_suffix(d, suffix);
    printed_numbers_are_read_back(n);
}

/// A name that does not start with `sm_`, or holds anything but a number before its
/// suffixes, has version 0.
pub proof fn other_names_have_no_version(name: Seq<char>, body: Seq<char>, suffix: Seq<char>, i: int)
    requires
        body.len() == 0 || (body.last() != 'a' && body.last() != 'f'),
        forall|k: int|
            0 <= k < suffix.len() ==> #[trigger] suffix[k] == 'a' || suffix[k] == 'f',
        body.len() == 0 || (0 <= i < body.len() && !('0' <= body[i] <= '9') && (i > 0 || body[0]
            != '+')),
    ensures
        sm_version(seq!['s', 'm', '_'] + body + suffix) == 0,
        name.len() < 3 || name[0] != 's' || name[1] != 'm' || name[2] != '_' ==> sm_version(name)
            == 0,
{
    let full = seq!['s', 'm', '_'] + body + suffix;
    assert(full.skip(3) =~= body + suffix);
    trimming_takes_off_the_whole_suffix(body, suffix);
    other_texts_are_no_numbers(body, i);
    if name.len() >= 3 && name.take(3) == seq!['s', 'm', '_'] {
        assert(name.take(3)[0] == name[0] && name.take(3)[1] == name[1] && name.take(3)[2]
            == name[2]);
    }
}

/// A launch taken apart has its function, configuration and values; its arguments are
/// the values in order.
pub proof fn a_launch_is_taken_apart_in_order<F>(launch: AsyncKernelLaunch<F>, i: int)
    requires
        0 <= i < launch.arguments().len() <= usize::MAX,
    ensures
        launch.parts().func == launch.function(),
        launch.parts().cfg == launch.config(),
        launch.parts().dependent == launch.dependent(),
        launch.parts().values == launch.arguments(),
        launch.parts().offsets.len() == launch.arguments().len(),
        launch.parts().offsets[i] == i,
{
}

/// A scalar is passed as it is stored.
pub proof fn a_scalar_is_passed_as_it_is_stored<T: PlanScalar>(value: T)
    ensures
        value.argument() == value.slot(),
{
}

/// The arguments of a launch are its slots, one after the other.
pub proof fn arguments_are_the_slots_in_order(args: KernelArgStorage)
    ensures
        args.wf() <==> args.starts().len() == args.slots().len() && forall|i: int|
            0 <= i < args.starts().len() ==> #[trigger] args.starts()[i] == i,
{
}

/// Every text of digits is read as the number it spells, leading zeros and all: let
/// `values` be the numbers that its leading digits spell.
pub proof fn digit_texts_are_read_as_their_value(s: Seq<char>, values: Seq<int>)
    requires
        s.len() > 0,
        forall|i: int| 0 <= i < s.len() ==> '0' <= #[trigger] s[i] <= '9',
        values.len() == s.len() + 1,
        values[0] == 0,
        forall|i: int|
            0 <= i < s.len() ==> values[i + 1] == values[i] * 10 + ((#[trigger] s[i]) as int - 0x30),
    ensures
        values.last() <= u32::MAX ==> parse_u32_spec(s) == Some(values.last()),
        values.last() > u32::MAX ==> parse_u32_spec(s) is None,
        values.last() <= u32::MAX ==> parse_u32_spec(seq!['+'] + s) == Some(values.last()),
{
    lemma_spelled(s, values, s.len() as int);
    assert(s.take(s.len() as int) =~= s);
    assert forall|i: int| 0 <= i < s.len() implies is_digit(#[trigger] s[i]) by {
        assert('0' <= s[i] <= '9');
    }
    assert((seq!['+'] + s).skip(1) =~= s);
    assert(is_digit(s[0]));
}

proof fn lemma_spelled(s: Seq<char>, values: Seq<int>, n: int)
    requires
        0 <= n <= s.len(),
        values.len() == s.len() + 1,
        values[0] == 0,
        forall|i: int|
            0 <= i < s.len() ==> values[i + 1] == values[i] * 10 + ((#[trigger] s[i]) as int - 0x30),
    ensures
        digits_value(s.take(n)) == values[n],
    decreases n,
{
    if n > 0 {
        lemma_spelled(s, values, n - 1);
        assert(s.take(n).drop_last() =~= s.take(n - 1));
        assert(s.take(n).last() == s[n - 1]);
        assert(values[(n - 1) + 1] == values[n - 1] * 10 + (s[n - 1] as int - 0x30));
    }
}

/// The version of an architecture is what the text between `sm_` and its suffixes is
/// read as, 0 where it is no number.
pub proof fn a_version_is_read_between_prefix_and_suffix(body: Seq<char>, suffix: Seq<char>)
    requires
        body.len() == 0 || (body.last() != 'a' && body.last() != 'f'),
        forall|k: int|
            0 <= k < suffix.len() ==> #[trigger] suffix[k] == 'a' || suffix[k] == 'f',
    ensures
        parse_u32_spec(body) matches Some(n) ==> sm_version(seq!['s', 'm', '_'] + body + suffix)
            == n,
        parse_u32_spec(body) is None ==> sm_version(seq!['s', 'm', '_'] + body + suffix) == 0,
{
    let full = seq!['s', 'm', '_'] + body + suffix;
    assert(full.take(3) =~= seq!['s', 'm', '_']);
    assert(full.skip(3) =~= body + suffix);
    trimming_takes_off_the_whole_suffix(body, suffix);
}

} // verus!
