//! Canonical predicate / term algebra for staged obligation resolution.
//!
//! Plain data shared by a kernel compiler (which builds and resolves
//! obligations) and the host launcher (which evaluates launch-stage
//! predicates): one [`Predicate`] is folded at JIT, evaluated against tensor
//! extents at launch, or lowered to an in-kernel assert.
//!
//! A [`Term`] is kept in canonical form, so semantic equality is structural
//! equality. A construction that overflows `i64` is not canonicalizable and
//! returns `None`; the caller falls back to a later stage. An un-formed term
//! fails to discharge an obligation early; it never yields a wrong equality.
use vstd::prelude::*;

verus! {

/// The compilation / execution stage at which a value becomes available:
/// `Jit`, then `Launch`, then `Device`; earlier is cheaper.
#[derive(Debug, Clone, Copy, PartialEq, Eq, PartialOrd, Ord, Hash, Structural)]
pub enum Stage {
    Jit,
    Launch,
    Device,
}

impl Stage {
    /// Position of the stage in the order `Jit`, `Launch`, `Device`.
    pub open spec fn rank(self) -> int {
        match self {
            Stage::Jit => 0,
            Stage::Launch => 1,
            Stage::Device => 2,
        }
    }
}

/// An indivisible term operand, tagged with the stage at which its value is
/// known. Atoms are identified by resolved symbols, never source names.
#[derive(Debug, Clone, Copy, PartialEq, Eq, PartialOrd, Ord, Hash, Structural)]
pub enum Atom {
    /// `extent(param, axis)`: a tensor axis extent in the root frame, by kernel
    /// parameter position. Known at launch.
    Dim { param: usize, axis: usize },
    /// A kernel-runtime induction variable, by opaque IR value id.
    Iv(u32),
    /// The tile-block id on a grid axis: a per-block runtime value.
    TileBlockId(usize),
    /// The number of tile blocks on a grid axis, fixed by the host before the
    /// launch. This is the slab count of the grid, not a tile count in a view.
    NumTileBlocks(usize),
    /// The extent of a parameter's kernel-visible view. The view frame and the
    /// root frame ([`Atom::Dim`]) are distinct variants, so that a fact in one
    /// frame never entails an obligation in the other.
    ViewExtent { param: usize, axis: usize },
    /// `ceil(extent(param, axis) / tile)` in the root frame; the tile size is
    /// part of the atom's identity. `tile` is at least 1.
    TileCount { param: usize, axis: usize, tile: i32 },
}

impl Atom {
    /// The stage at which this atom's value is known.
    pub open spec fn stage_of(self) -> Stage {
        match self {
            Atom::Dim { .. } => Stage::Launch,
            Atom::Iv(_) => Stage::Device,
            Atom::TileBlockId(_) => Stage::Device,
            Atom::NumTileBlocks(_) => Stage::Launch,
            Atom::ViewExtent { .. } => Stage::Launch,
            Atom::TileCount { .. } => Stage::Launch,
        }
    }

    /// The sort key of an atom: variant first, then the fields in order.
    pub open spec fn key(self) -> (int, int, int, int) {
        match self {
            Atom::Dim { param, axis } => (0, param as int, axis as int, 0),
            Atom::Iv(id) => (1, id as int, 0, 0),
            Atom::TileBlockId(k) => (2, k as int, 0, 0),
            Atom::NumTileBlocks(k) => (3, k as int, 0, 0),
            Atom::ViewExtent { param, axis } => (4, param as int, axis as int, 0),
            Atom::TileCount { param, axis, tile } => (5, param as int, axis as int, tile as int),
        }
    }

    /// The strict total order on atoms: lexicographic on [`Atom::key`].
    pub open spec fn before(self, other: Atom) -> bool {
        let (a0, a1, a2, a3) = self.key();
        let (b0, b1, b2, b3) = other.key();
        a0 < b0 || (a0 == b0 && (a1 < b1 || (a1 == b1 && (a2 < b2 || (a2 == b2 && a3 < b3)))))
    }

    /// The stage at which this atom's value is known.
    pub fn stage(&self) -> (r: Stage)
        ensures
            r == self.stage_of(),
    {
        match self {
            Atom::Dim { .. }
            | Atom::NumTileBlocks(_)
            | Atom::ViewExtent { .. }
            | Atom::TileCount { .. } => Stage::Launch,
            Atom::Iv(_) | Atom::TileBlockId(_) => Stage::Device,
        }
    }

    /// The position of the variant in the atom order.
    fn variant_index(&self) -> (r: u8)
        ensures
            r == self.key().0,
    {
        match self {
            Atom::Dim { .. } => 0,
            Atom::Iv(_) => 1,
            Atom::TileBlockId(_) => 2,
            Atom::NumTileBlocks(_) => 3,
            Atom::ViewExtent { .. } => 4,
            Atom::TileCount { .. } => 5,
        }
    }

    /// Whether `self` sorts strictly before `other`.
    fn sorts_before(&self, other: &Atom) -> (r: bool)
        ensures
            r == self.before(*other),
    {
        match (self, other) {
            (Atom::Dim { param: p, axis: a }, Atom::Dim { param: q, axis: b })
            | (Atom::ViewExtent { param: p, axis: a }, Atom::ViewExtent { param: q, axis: b }) => {
                *p < *q || (*p == *q && *a < *b)
            },
            (Atom::Iv(x), Atom::Iv(y)) => *x < *y,
            (Atom::TileBlockId(x), Atom::TileBlockId(y))
            | (Atom::NumTileBlocks(x), Atom::NumTileBlocks(y)) => *x < *y,
            (
                Atom::TileCount { param: p, axis: a, tile: s },
                Atom::TileCount { param: q, axis: b, tile: t },
            ) => *p < *q || (*p == *q && (*a < *b || (*a == *b && *s < *t))),
            _ => self.variant_index() < other.variant_index(),
        }
    }
}

/// The atom order is a strict total order: irreflexive, transitive, and any two
/// distinct atoms are ordered one way.
pub proof fn atom_order_is_total(a: Atom, b: Atom, c: Atom)
    ensures
        !a.before(a),
        a.before(b) && b.before(c) ==> a.before(c),
        a.before(b) || b.before(a) || a == b,
        a.before(b) ==> !b.before(a) && a != b,
{
}

/// Whether an integer is representable as `i64`.
pub open spec fn fits(x: int) -> bool {
    i64::MIN <= x <= i64::MAX
}

/// The canonical form of a coefficient list: strictly sorted by atom and free
/// of zero coefficients.
pub open spec fn canonical(s: Seq<(Atom, i64)>) -> bool {
    &&& forall|i: int, j: int| 0 <= i < j < s.len() ==> (#[trigger] s[i]).0.before((#[trigger] s[j]).0)
    &&& forall|i: int| 0 <= i < s.len() ==> (#[trigger] s[i]).1 != 0
}

/// The coefficient of `a` in a coefficient list: 0 where the list has none.
pub open spec fn lookup(s: Seq<(Atom, i64)>, a: Atom) -> int
    decreases s.len(),
{
    if s.len() == 0 {
        0
    } else if s.last().0 == a {
        s.last().1 as int
    } else {
        lookup(s.drop_last(), a)
    }
}

/// The value of a coefficient list where the atoms take the values of `env`.
pub open spec fn dot(s: Seq<(Atom, i64)>, env: spec_fn(Atom) -> int) -> int
    decreases s.len(),
{
    if s.len() == 0 {
        0
    } else {
        dot(s.drop_last(), env) + s.last().1 * env(s.last().0)
    }
}

/// One step of an evaluation: `acc + c * v`, or nothing where the atom has no
/// value or a product or sum leaves `i64`.
pub open spec fn eval_step(acc: Option<i64>, c: i64, v: Option<i64>) -> Option<i64> {
    match (acc, v) {
        (Some(x), Some(y)) => if fits(c * y) && fits(x + c * y) {
            Some((x + c * y) as i64)
        } else {
            None
        },
        _ => None,
    }
}

/// The evaluation of the first `n` entries, in atom order, from `start`.
pub open spec fn eval_prefix(
    s: Seq<(Atom, i64)>,
    n: int,
    start: i64,
    env: spec_fn(Atom) -> Option<i64>,
) -> Option<i64>
    decreases n,
{
    if n <= 0 {
        Some(start)
    } else {
        eval_step(eval_prefix(s, n - 1, start, env), s[n - 1].1, env(s[n - 1].0))
    }
}

/// Every answer that `resolve` can give for an atom of `s` is that of `env`.
pub open spec fn answers_as<F: Fn(&Atom) -> Option<i64>>(
    resolve: F,
    s: Seq<(Atom, i64)>,
    env: spec_fn(Atom) -> Option<i64>,
) -> bool {
    forall|i: int, v: Option<i64>|
        0 <= i < s.len() && #[trigger] resolve.ensures((&s[i].0,), v) ==> v == env(s[i].0)
}

/// `env` holds an answer of `resolve` for each atom that the evaluation asks
/// for: those before the first that is unresolved or overflows, and that one.
pub open spec fn asked_of<F: Fn(&Atom) -> Option<i64>>(
    resolve: F,
    s: Seq<(Atom, i64)>,
    start: i64,
    env: spec_fn(Atom) -> Option<i64>,
) -> bool {
    forall|i: int|
        0 <= i < s.len() && #[trigger] eval_prefix(s, i, start, env) is Some ==> resolve.ensures(
            (&s[i].0,),
            env(s[i].0),
        )
}

proof fn lemma_lookup_absent(s: Seq<(Atom, i64)>, a: Atom)
    requires
        forall|i: int| 0 <= i < s.len() ==> (#[trigger] s[i]).0 != a,
    ensures
        lookup(s, a) == 0,
    decreases s.len(),
{
    if s.len() > 0 {
        lemma_lookup_absent(s.drop_last(), a);
    }
}

proof fn lemma_lookup_present(s: Seq<(Atom, i64)>, i: int)
    requires
        canonical(s),
        0 <= i < s.len(),
    ensures
        lookup(s, s[i].0) == s[i].1,
    decreases s.len(),
{
    if i < s.len() - 1 {
        atom_order_is_total(s[i].0, s.last().0, s[i].0);
        lemma_lookup_present(s.drop_last(), i);
    }
}

/// A nonzero coefficient is one of the entries.
proof fn lemma_lookup_entry(s: Seq<(Atom, i64)>, a: Atom) -> (i: int)
    requires
        lookup(s, a) != 0,
    ensures
        0 <= i < s.len(),
        s[i].0 == a,
    decreases s.len(),
{
    if s.last().0 == a {
        s.len() - 1
    } else {
        lemma_lookup_entry(s.drop_last(), a)
    }
}

proof fn lemma_canonical_drop_last(s: Seq<(Atom, i64)>)
    requires
        canonical(s),
        s.len() > 0,
    ensures
        canonical(s.drop_last()),
        forall|i: int| 0 <= i < s.len() - 1 ==> (#[trigger] s.drop_last()[i]).0.before(s.last().0),
        lookup(s.drop_last(), s.last().0) == 0,
{
    let d = s.drop_last();
    assert forall|i: int, j: int| 0 <= i < j < d.len() implies (#[trigger] d[i]).0.before(
        (#[trigger] d[j]).0,
    ) by {
        assert(s[i].0.before(s[j].0));
    }
    assert forall|i: int| 0 <= i < d.len() implies (#[trigger] d[i]).1 != 0 by {
        assert(s[i].1 != 0);
    }
    assert forall|i: int| 0 <= i < s.len() - 1 implies (#[trigger] d[i]).0.before(s.last().0) by {
        assert(s[i].0.before(s[s.len() - 1].0));
    }
    assert forall|i: int| 0 <= i < d.len() implies (#[trigger] d[i]).0 != s.last().0 by {
        assert(d[i].0.before(s.last().0));
        atom_order_is_total(d[i].0, s.last().0, s.last().0);
    }
    lemma_lookup_absent(d, s.last().0);
}

/// What lies after every entry has coefficient 0.
proof fn lemma_lookup_beyond(s: Seq<(Atom, i64)>, a: Atom)
    requires
        canonical(s),
        s.len() > 0 ==> s.last().0.before(a),
    ensures
        lookup(s, a) == 0,
{
    assert forall|i: int| 0 <= i < s.len() implies (#[trigger] s[i]).0 != a by {
        if i < s.len() - 1 {
            assert(s[i].0.before(s[s.len() - 1].0));
        }
        atom_order_is_total(s[i].0, s.last().0, a);
        atom_order_is_total(s[i].0, a, a);
    }
    lemma_lookup_absent(s, a);
}

proof fn lemma_push_canonical(s: Seq<(Atom, i64)>, a: Atom, c: i64)
    requires
        canonical(s),
        c != 0,
        s.len() > 0 ==> s.last().0.before(a),
    ensures
        canonical(s.push((a, c))),
{
    let t = s.push((a, c));
    assert forall|i: int, j: int| 0 <= i < j < t.len() implies (#[trigger] t[i]).0.before(
        (#[trigger] t[j]).0,
    ) by {
        if j == s.len() {
            if i < s.len() - 1 {
                assert(s[i].0.before(s[s.len() - 1].0));
                atom_order_is_total(s[i].0, s.last().0, a);
            }
        } else {
            assert(s[i].0.before(s[j].0));
        }
    }
}

proof fn lemma_push_lookup(s: Seq<(Atom, i64)>, a: Atom, c: i64)
    ensures
        forall|x: Atom| #[trigger] lookup(s.push((a, c)), x) == if x == a {
            c as int
        } else {
            lookup(s, x)
        },
{
    assert(s.push((a, c)).drop_last() =~= s);
}

/// Two canonical lists with the same coefficients are the same list.
proof fn lemma_canonical_unique(s: Seq<(Atom, i64)>, t: Seq<(Atom, i64)>)
    requires
        canonical(s),
        canonical(t),
        forall|a: Atom| lookup(s, a) == lookup(t, a),
    ensures
        s == t,
    decreases s.len() + t.len(),
{
    if s.len() == 0 {
        if t.len() > 0 {
            lemma_lookup_present(t, t.len() - 1);
            assert(lookup(s, t.last().0) == 0);
        }
        assert(s =~= t);
    } else if t.len() == 0 {
        lemma_lookup_present(s, s.len() - 1);
        assert(lookup(t, s.last().0) == 0);
    } else {
        let a = s.last().0;
        let b = t.last().0;
        lemma_lookup_present(s, s.len() - 1);
        lemma_lookup_present(t, t.len() - 1);
        atom_order_is_total(a, b, a);
        if a.before(b) {
            lemma_lookup_beyond(s, b);
        } else if b.before(a) {
            lemma_lookup_beyond(t, a);
        }
        assert(a == b);
        lemma_canonical_drop_last(s);
        lemma_canonical_drop_last(t);
        assert forall|x: Atom| lookup(s.drop_last(), x) == lookup(t.drop_last(), x) by {
            assert(lookup(s, x) == lookup(t, x));
        }
        lemma_canonical_unique(s.drop_last(), t.drop_last());
        assert(s =~= s.drop_last().push(s.last()));
        assert(t =~= t.drop_last().push(t.last()));
    }
}

/// `s` without its entry for `m`, where `m` is not before the last entry.
spec fn strip(s: Seq<(Atom, i64)>, m: Atom) -> Seq<(Atom, i64)> {
    if s.len() > 0 && s.last().0 == m {
        s.drop_last()
    } else {
        s
    }
}

proof fn lemma_strip(s: Seq<(Atom, i64)>, m: Atom, env: spec_fn(Atom) -> int)
    requires
        canonical(s),
        s.len() > 0 ==> s.last().0.before(m) || s.last().0 == m,
    ensures
        canonical(strip(s, m)),
        forall|x: Atom| #[trigger] lookup(strip(s, m), x) == if x == m {
            0
        } else {
            lookup(s, x)
        },
        dot(s, env) == dot(strip(s, m), env) + lookup(s, m) * env(m),
{
    if s.len() > 0 && s.last().0 == m {
        lemma_canonical_drop_last(s);
        lemma_lookup_present(s, s.len() - 1);
    } else {
        lemma_lookup_beyond(s, m);
    }
}

/// The greater of the last atom of `s` and `m`.
spec fn later(s: Seq<(Atom, i64)>, m: Atom) -> Atom {
    if s.len() > 0 && m.before(s.last().0) {
        s.last().0
    } else {
        m
    }
}

/// Linearity: where the coefficients are a linear combination, so are the
/// values.
proof fn lemma_dot_linear(
    t: Seq<(Atom, i64)>,
    a: Seq<(Atom, i64)>,
    b: Seq<(Atom, i64)>,
    p: int,
    q: int,
    env: spec_fn(Atom) -> int,
)
    requires
        canonical(t),
        canonical(a),
        canonical(b),
        forall|x: Atom| #[trigger] lookup(t, x) == p * lookup(a, x) + q * lookup(b, x),
    ensures
        dot(t, env) == p * dot(a, env) + q * dot(b, env),
    decreases t.len() + a.len() + b.len(),
{
    if t.len() + a.len() + b.len() == 0 {
        assert(p * 0 + q * 0 == 0) by (nonlinear_arith);
    } else {
        let first = if t.len() > 0 {
            t.last().0
        } else if a.len() > 0 {
            a.last().0
        } else {
            b.last().0
        };
        let m = later(b, later(a, first));
        assert(t.len() > 0 ==> t.last().0.before(m) || t.last().0 == m) by {
            if t.len() > 0 {
                atom_order_is_total(t.last().0, later(a, first), m);
                atom_order_is_total(first, later(a, first), m);
            }
        }
        assert(a.len() > 0 ==> a.last().0.before(m) || a.last().0 == m) by {
            if a.len() > 0 {
                atom_order_is_total(a.last().0, first, m);
                atom_order_is_total(a.last().0, later(a, first), m);
            }
        }
        assert(b.len() > 0 ==> b.last().0.before(m) || b.last().0 == m) by {
            if b.len() > 0 {
                atom_order_is_total(b.last().0, later(a, first), m);
            }
        }
        lemma_strip(t, m, env);
        lemma_strip(a, m, env);
        lemma_strip(b, m, env);
        assert forall|x: Atom| #[trigger]
            lookup(strip(t, m), x) == p * lookup(strip(a, m), x) + q * lookup(strip(b, m), x) by {
            assert(lookup(t, x) == p * lookup(a, x) + q * lookup(b, x));
            assert(p * 0 + q * 0 == 0) by (nonlinear_arith);
        }
        lemma_dot_linear(strip(t, m), strip(a, m), strip(b, m), p, q, env);
        let (ta, tb) = (dot(strip(a, m), env), dot(strip(b, m), env));
        let (ca, cb, e) = (lookup(a, m), lookup(b, m), env(m));
        assert(lookup(t, m) == p * ca + q * cb);
        assert((p * ta + q * tb) + (p * ca + q * cb) * e == p * (ta + ca * e) + q * (tb + cb * e))
            by (nonlinear_arith);
    }
}

/// Where coefficients agree modulo `d`, so do the values.
proof fn lemma_dot_mod(
    t: Seq<(Atom, i64)>,
    s: Seq<(Atom, i64)>,
    d: int,
    env: spec_fn(Atom) -> int,
)
    requires
        canonical(t),
        canonical(s),
        d >= 1,
        forall|x: Atom| (#[trigger] lookup(t, x) - lookup(s, x)) % d == 0,
    ensures
        (dot(t, env) - dot(s, env)) % d == 0,
    decreases t.len() + s.len(),
{
    if t.len() + s.len() == 0 {
        vstd::arithmetic::div_mod::lemma_small_mod(0, d as nat);
    } else {
        let first = if t.len() > 0 {
            t.last().0
        } else {
            s.last().0
        };
        let m = later(s, first);
        atom_order_is_total(first, m, m);
        if s.len() > 0 {
            atom_order_is_total(s.last().0, first, m);
        }
        lemma_strip(t, m, env);
        lemma_strip(s, m, env);
        assert forall|x: Atom| (#[trigger] lookup(strip(t, m), x) - lookup(strip(s, m), x)) % d
            == 0 by {
            assert((lookup(t, x) - lookup(s, x)) % d == 0);
            vstd::arithmetic::div_mod::lemma_small_mod(0, d as nat);
        }
        lemma_dot_mod(strip(t, m), strip(s, m), d, env);
        let base = dot(strip(t, m), env) - dot(strip(s, m), env);
        let diff = lookup(t, m) - lookup(s, m);
        let e = env(m);
        assert(dot(t, env) - dot(s, env) == base + diff * e) by (nonlinear_arith)
            requires
                dot(t, env) == dot(strip(t, m), env) + lookup(t, m) * e,
                dot(s, env) == dot(strip(s, m), env) + lookup(s, m) * e,
                base == dot(strip(t, m), env) - dot(strip(s, m), env),
                diff == lookup(t, m) - lookup(s, m),
        ;
        lemma_multiples_add(base, diff, e, d);
    }
}

/// A sum of multiples of `d` is one: `base + diff * e`.
proof fn lemma_multiples_add(base: int, diff: int, e: int, d: int)
    requires
        d >= 1,
        base % d == 0,
        diff % d == 0,
    ensures
        (base + diff * e) % d == 0,
{
    let k = base / d;
    let l = diff / d;
    vstd::arithmetic::div_mod::lemma_fundamental_div_mod(base, d);
    vstd::arithmetic::div_mod::lemma_fundamental_div_mod(diff, d);
    assert(base + diff * e == (k + l * e) * d) by (nonlinear_arith)
        requires
            base == d * k,
            diff == d * l,
    ;
    vstd::arithmetic::div_mod::lemma_mod_multiples_basic(k + l * e, d);
}

/// A value at the indicator of one atom is that atom's coefficient.
proof fn lemma_dot_indicator(s: Seq<(Atom, i64)>, a: Atom, env: spec_fn(Atom) -> int)
    requires
        canonical(s),
        forall|x: Atom| #[trigger] env(x) == if x == a {
            1int
        } else {
            0
        },
    ensures
        dot(s, env) == lookup(s, a),
    decreases s.len(),
{
    if s.len() > 0 {
        lemma_canonical_drop_last(s);
        lemma_dot_indicator(s.drop_last(), a, env);
        assert(env(s.last().0) == if s.last().0 == a {
            1int
        } else {
            0
        });
    }
}

proof fn lemma_dot_zero(s: Seq<(Atom, i64)>, env: spec_fn(Atom) -> int)
    requires
        forall|x: Atom| #[trigger] env(x) == 0,
    ensures
        dot(s, env) == 0,
    decreases s.len(),
{
    if s.len() > 0 {
        lemma_dot_zero(s.drop_last(), env);
        assert(env(s.last().0) == 0);
    }
}

/// A canonical linear integer term: `sum(coeff_i * atom_i) + constant`.
///
/// Normal-form invariant ([`Term::wf`]): the coefficients are sorted by atom
/// and none is zero. Two terms are semantically equal iff structurally equal,
/// so `PartialEq` and `Hash` are the equality test.
#[derive(Debug, PartialEq, Eq, Hash)]
pub struct Term {
    coeffs: Vec<(Atom, i64)>,
    constant: i64,
}

impl Term {
    /// The coefficient list.
    pub closed spec fn terms(self) -> Seq<(Atom, i64)> {
        self.coeffs@
    }

    /// The constant part.
    pub closed spec fn offset(self) -> int {
        self.constant as int
    }

    /// The normal-form invariant.
    pub open spec fn wf(self) -> bool {
        canonical(self.terms())
    }

    #[verifier::type_invariant]
    spec fn valid(self) -> bool {
        self.wf()
    }

    /// The coefficient of an atom, 0 where the term does not read it.
    pub open spec fn coeff(self, a: Atom) -> int {
        lookup(self.terms(), a)
    }

    /// The mathematical value of the term.
    pub open spec fn value(self, env: spec_fn(Atom) -> int) -> int {
        dot(self.terms(), env) + self.offset()
    }

    /// `self == p * a + q * b`, coefficient by coefficient.
    pub open spec fn combines(self, p: int, a: Term, q: int, b: Term) -> bool {
        &&& self.offset() == p * a.offset() + q * b.offset()
        &&& forall|x: Atom| #[trigger] self.coeff(x) == p * a.coeff(x) + q * b.coeff(x)
    }

    /// `p * a + q * b` leaves `i64` in the constant or in a coefficient.
    pub open spec fn overflows(p: int, a: Term, q: int, b: Term) -> bool {
        ||| !fits(p * a.offset() + q * b.offset())
        ||| exists|x: Atom| !fits(p * #[trigger] a.coeff(x) + q * b.coeff(x))
    }

    /// The checked evaluation: atoms in order, nothing where an atom is
    /// unresolved or an intermediate result leaves `i64`.
    pub open spec fn eval_spec(self, env: spec_fn(Atom) -> Option<i64>) -> Option<i64> {
        eval_prefix(self.terms(), self.terms().len() as int, self.offset() as i64, env)
    }

    /// The constant term `c`.
    pub fn constant(c: i64) -> (r: Term)
        ensures
            r.wf(),
            r.terms() == Seq::<(Atom, i64)>::empty(),
            r.offset() == c,
    {
        Term { coeffs: Vec::new(), constant: c }
    }

    /// The term `atom` (coefficient 1).
    pub fn atom(a: Atom) -> (r: Term)
        ensures
            r.wf(),
            r.terms() == seq![(a, 1i64)],
            r.offset() == 0,
    {
        let mut coeffs: Vec<(Atom, i64)> = Vec::new();
        coeffs.push((a, 1));
        Term { coeffs, constant: 0 }
    }

    /// The affine term `scale * atom + offset`. A zero scale folds to `offset`.
    pub fn affine(a: Atom, scale: i64, offset: i64) -> (r: Term)
        ensures
            r.wf(),
            r.offset() == offset,
            r.terms() == if scale == 0 {
                Seq::<(Atom, i64)>::empty()
            } else {
                seq![(a, scale)]
            },
    {
        if scale == 0 {
            return Term::constant(offset);
        }
        let mut coeffs: Vec<(Atom, i64)> = Vec::new();
        coeffs.push((a, scale));
        Term { coeffs, constant: offset }
    }

    /// The whole-term constant, if it has no atoms.
    pub fn as_constant(&self) -> (r: Option<i64>)
        ensures
            r is Some <==> self.terms().len() == 0,
            r matches Some(c) ==> c == self.offset(),
    {
        if self.coeffs.is_empty() {
            Some(self.constant)
        } else {
            None
        }
    }

    /// Read access to the coefficients (sorted, zero-free).
    pub fn coeffs(&self) -> (r: &Vec<(Atom, i64)>)
        ensures
            r@ == self.terms(),
    {
        &self.coeffs
    }

    /// The constant part (may be nonzero even when atoms are present).
    pub fn constant_part(&self) -> (r: i64)
        ensures
            r == self.offset(),
    {
        self.constant
    }

    /// The stage at which the whole term becomes evaluable: the latest over its
    /// atoms; a constant term is [`Stage::Jit`].
    pub fn stage(&self) -> (r: Stage)
        ensures
            is_latest_stage(self.terms(), r),
    {
        let mut best: Stage = Stage::Jit;
        let mut i: usize = 0;
        while i < self.coeffs.len()
            invariant
                i <= self.coeffs.len(),
                is_latest_stage(self.coeffs@.take(i as int), best),
            decreases self.coeffs.len() - i,
        {
            let next = self.coeffs[i].0.stage();
            let ghost before = self.coeffs@.take(i as int);
            let ghost after = self.coeffs@.take(i + 1);
            assert(after =~= before.push(self.coeffs@[i as int]));
            let later = match (best, next) {
                (_, Stage::Device) => true,
                (Stage::Jit, _) => true,
                _ => false,
            };
            proof {
                let last = after[i as int];
                assert(last.0.stage_of() == next);
                assert forall|k: int| 0 <= k < after.len() implies (#[trigger]
                after[k]).0.stage_of().rank() <= (if later { next } else { best }).rank() by {
                    if k < i {
                        assert(after[k] == before[k]);
                    }
                }
                if !later {
                    let k = choose|k: int| 0 <= k < before.len() && (#[trigger]
                    before[k]).0.stage_of() == best;
                    assert(after[k] == before[k]);
                }
            }
            if later {
                best = next;
            }
            i += 1;
        }
        assert(self.coeffs@.take(i as int) =~= self.coeffs@);
        best
    }

    /// `self + other`, or `None` on `i64` overflow (not canonicalizable; the
    /// caller sinks to a later stage).
    pub fn add(&self, other: &Term) -> (r: Option<Term>)
        ensures
            r is None <==> Term::overflows(1, *self, 1, *other),
            r matches Some(t) ==> t.wf() && t.combines(1, *self, 1, *other),
    {
        proof {
            use_type_invariant(self);
            use_type_invariant(other);
        }
        let ghost sa = self.coeffs@;
        let ghost sb = other.coeffs@;
        let mut coeffs: Vec<(Atom, i64)> = Vec::new();
        let mut i: usize = 0;
        let mut j: usize = 0;
        while i < self.coeffs.len() || j < other.coeffs.len()
            invariant
                sa == self.coeffs@,
                sb == other.coeffs@,
                canonical(sa),
                canonical(sb),
                i <= sa.len(),
                j <= sb.len(),
                canonical(coeffs@),
                forall|x: Atom| #[trigger]
                    lookup(coeffs@, x) == lookup(sa.take(i as int), x) + lookup(sb.take(j as int), x),
                coeffs@.len() > 0 && i < sa.len() ==> coeffs@.last().0.before(sa[i as int].0),
                coeffs@.len() > 0 && j < sb.len() ==> coeffs@.last().0.before(sb[j as int].0),
                i > 0 && j < sb.len() ==> sa[i - 1].0.before(sb[j as int].0),
                j > 0 && i < sa.len() ==> sb[j - 1].0.before(sa[i as int].0),
            decreases sa.len() - i + sb.len() - j,
        {
            let take_left: bool;
            let take_right: bool;
            if i < self.coeffs.len() && j < other.coeffs.len() {
                take_left = !other.coeffs[j].0.sorts_before(&self.coeffs[i].0);
                take_right = !self.coeffs[i].0.sorts_before(&other.coeffs[j].0);
            } else {
                take_left = i < self.coeffs.len();
                take_right = !take_left;
            }
            let atom = if take_left {
                self.coeffs[i].0
            } else {
                other.coeffs[j].0
            };
            let left: i64 = if take_left {
                self.coeffs[i].1
            } else {
                0
            };
            let right: i64 = if take_right {
                other.coeffs[j].1
            } else {
                0
            };
            proof {
                if i < sa.len() && j < sb.len() {
                    atom_order_is_total(sa[i as int].0, sb[j as int].0, sa[i as int].0);
                }
                lemma_take_next(sa, i as int, take_left, atom);
                lemma_take_next(sb, j as int, take_right, atom);
            }
            let sum = match left.checked_add(right) {
                Some(sum) => sum,
                None => {
                    proof {
                        lemma_coeff_at(sa, i as int, take_left, atom);
                        lemma_coeff_at(sb, j as int, take_right, atom);
                        assert(!fits(1 * self.coeff(atom) + 1 * other.coeff(atom)));
                    }
                    return None;
                },
            };
            proof {
                assert(lookup(coeffs@, atom) == 0);
                lemma_push_lookup(coeffs@, atom, sum);
                if sum != 0 {
                    lemma_push_canonical(coeffs@, atom, sum);
                }
                if take_left && i + 1 < sa.len() {
                    assert(sa[i as int].0.before(sa[i + 1].0));
                    if coeffs@.len() > 0 {
                        atom_order_is_total(coeffs@.last().0, sa[i as int].0, sa[i + 1].0);
                    }
                    if !take_right && j < sb.len() {
                        atom_order_is_total(sa[i as int].0, sb[j as int].0, sa[i + 1].0);
                    }
                }
                if take_right && j + 1 < sb.len() {
                    assert(sb[j as int].0.before(sb[j + 1].0));
                    if coeffs@.len() > 0 {
                        atom_order_is_total(coeffs@.last().0, sb[j as int].0, sb[j + 1].0);
                    }
                }
            }
            if sum != 0 {
                coeffs.push((atom, sum));
            }
            if take_left {
                i += 1;
            }
            if take_right {
                j += 1;
            }
        }
        proof {
            assert(sa.take(i as int) =~= sa);
            assert(sb.take(j as int) =~= sb);
        }
        match self.constant.checked_add(other.constant) {
            Some(constant) => {
                let t = Term { coeffs, constant };
                assert(t.combines(1, *self, 1, *other));
                proof {
                    lemma_combination_fits(t, 1, *self, 1, *other);
                }
                Some(t)
            },
            None => None,
        }
    }

    /// `k * self` for a nonzero `k`, or `None` on overflow.
    fn scaled(&self, k: i64) -> (r: Option<Term>)
        requires
            k != 0,
        ensures
            r is None <==> Term::overflows(k as int, *self, 0, *self),
            r matches Some(t) ==> t.wf() && t.combines(k as int, *self, 0, *self),
    {
        proof {
            use_type_invariant(self);
        }
        let ghost s = self.coeffs@;
        let mut coeffs: Vec<(Atom, i64)> = Vec::new();
        let mut i: usize = 0;
        while i < self.coeffs.len()
            invariant
                s == self.coeffs@,
                canonical(s),
                k != 0,
                i == coeffs@.len(),
                i <= s.len(),
                canonical(coeffs@),
                i > 0 ==> coeffs@.last().0 == s[i - 1].0,
                forall|x: Atom| #[trigger]
                    lookup(coeffs@, x) == k * lookup(s.take(i as int), x),
            decreases s.len() - i,
        {
            let (atom, c) = self.coeffs[i];
            proof {
                lemma_take_next(s, i as int, true, atom);
                lemma_lookup_present(s, i as int);
                if i > 0 {
                    assert(s[i - 1].0.before(s[i as int].0));
                }
                assert(k * c != 0) by (nonlinear_arith)
                    requires
                        k != 0,
                        c != 0,
                ;
                assert(c * k == k * c) by (nonlinear_arith);
            }
            match c.checked_mul(k) {
                Some(scaled) => {
                    proof {
                        lemma_push_canonical(coeffs@, atom, scaled);
                        lemma_push_lookup(coeffs@, atom, scaled);
                    }
                    coeffs.push((atom, scaled));
                },
                None => {
                    assert(!fits(k * self.coeff(atom) + 0 * self.coeff(atom)));
                    return None;
                },
            }
            i += 1;
        }
        proof {
            assert(s.take(i as int) =~= s);
            assert(self.constant * k == k * self.constant) by (nonlinear_arith);
        }
        match self.constant.checked_mul(k) {
            Some(constant) => {
                let t = Term { coeffs, constant };
                assert(t.combines(k as int, *self, 0, *self));
                proof {
                    lemma_combination_fits(t, k as int, *self, 0, *self);
                }
                Some(t)
            },
            None => None,
        }
    }

    /// `-self`, or `None` on overflow.
    pub fn neg(&self) -> (r: Option<Term>)
        ensures
            r is None <==> Term::overflows(-1, *self, 0, *self),
            r matches Some(t) ==> t.wf() && t.combines(-1, *self, 0, *self),
    {
        proof {
            use_type_invariant(self);
        }
        self.scaled(-1)
    }

    /// `self - other`, or `None` on overflow, of `-other` or of the sum.
    pub fn sub(&self, other: &Term) -> (r: Option<Term>)
        ensures
            r is None <==> Term::difference_overflows(*self, *other),
            r matches Some(t) ==> t.wf() && t.combines(1, *self, -1, *other),
    {
        proof {
            use_type_invariant(self);
            use_type_invariant(other);
        }
        match other.neg() {
            Some(negated) => {
                let r = self.add(&negated);
                proof {
                    assert forall|x: Atom|
                        1 * #[trigger] self.coeff(x) + 1 * negated.coeff(x) == 1 * self.coeff(x)
                            + -1 * other.coeff(x) by {
                        assert(negated.coeff(x) == -1 * other.coeff(x) + 0 * other.coeff(x));
                    }
                    if Term::overflows(1, *self, -1, *other) && fits(
                        1 * self.offset() + -1 * other.offset(),
                    ) {
                        let x = choose|x: Atom|
                            !fits(1 * #[trigger] self.coeff(x) + -1 * other.coeff(x));
                        assert(!fits(1 * self.coeff(x) + 1 * negated.coeff(x)));
                    }
                    if r is Some {
                        let t = r->0;
                        assert forall|x: Atom| #[trigger]
                            t.coeff(x) == 1 * self.coeff(x) + -1 * other.coeff(x) by {
                            assert(1 * self.coeff(x) + 1 * negated.coeff(x) == 1 * self.coeff(x)
                                + -1 * other.coeff(x));
                        }
                    }
                }
                r
            },
            None => None,
        }
    }

    /// `a - b` is not formed: `-b` or the sum leaves `i64`.
    pub open spec fn difference_overflows(a: Term, b: Term) -> bool {
        Term::overflows(-1, b, 0, b) || Term::overflows(1, a, -1, b)
    }

    /// `k * self`, or `None` on overflow.
    pub fn mul_const(&self, k: i64) -> (r: Option<Term>)
        ensures
            r is None <==> Term::overflows(k as int, *self, 0, *self),
            r matches Some(t) ==> t.wf() && t.combines(k as int, *self, 0, *self),
    {
        proof {
            use_type_invariant(self);
        }
        if k == 0 {
            let zero = Term::constant(0);
            assert(zero.combines(0, *self, 0, *self));
            proof {
                lemma_combination_fits(zero, 0, *self, 0, *self);
            }
            return Some(zero);
        }
        self.scaled(k)
    }

    /// The leading coefficient: that of the least atom, or the constant when
    /// there are no atoms.
    pub open spec fn leading(self) -> int {
        if self.terms().len() > 0 {
            self.terms()[0].1 as int
        } else {
            self.offset()
        }
    }

    /// `t` is the sign-canonical representative of `self`: the negation where
    /// the leading coefficient is negative and the negation fits, else `self`.
    pub open spec fn sign_canonical_is(self, t: Term) -> bool {
        if self.leading() < 0 && !Term::overflows(-1, self, 0, self) {
            t.wf() && t.combines(-1, self, 0, self)
        } else {
            t.terms() == self.terms() && t.offset() == self.offset()
        }
    }

    /// A sign-canonical representative. It gives the sign-invariant predicates
    /// (`== 0`, `!= 0`, `% d == 0`) one form, so that `a == b` and `b == a`
    /// unify. Where the negation would overflow the term itself is kept.
    fn sign_canonical(&self) -> (r: Term)
        ensures
            r.wf(),
            self.sign_canonical_is(r),
    {
        proof {
            use_type_invariant(self);
        }
        let leading_negative = if self.coeffs.len() > 0 {
            self.coeffs[0].1 < 0
        } else {
            self.constant < 0
        };
        if leading_negative {
            match self.neg() {
                Some(t) => t,
                None => self.clone(),
            }
        } else {
            self.clone()
        }
    }

    /// If the term is `scale * atom + offset` (exactly one atom), return
    /// `(atom, scale, offset)`; a richer or poorer term returns `None`.
    pub fn as_single_affine(&self) -> (r: Option<(Atom, i64, i64)>)
        ensures
            r is Some <==> self.terms().len() == 1,
            r matches Some((atom, scale, offset)) ==> self.terms()[0] == (atom, scale)
                && self.offset() == offset,
    {
        if self.coeffs.len() != 1 {
            return None;
        }
        let (atom, scale) = self.coeffs[0];
        Some((atom, scale, self.constant))
    }

    /// The atoms the term reads, in order.
    pub fn atoms(&self) -> (r: Vec<Atom>)
        ensures
            r@ == self.terms().map_values(|e: (Atom, i64)| e.0),
    {
        let mut out: Vec<Atom> = Vec::new();
        let mut i: usize = 0;
        while i < self.coeffs.len()
            invariant
                i <= self.coeffs.len(),
                out@ == self.coeffs@.take(i as int).map_values(|e: (Atom, i64)| e.0),
            decreases self.coeffs.len() - i,
        {
            out.push(self.coeffs[i].0);
            assert(self.coeffs@.take(i + 1) =~= self.coeffs@.take(i as int).push(
                self.coeffs@[i as int],
            ));
            i += 1;
        }
        assert(self.coeffs@.take(i as int) =~= self.coeffs@);
        out
    }
}

impl Term {
    /// Evaluate given a resolver from atom to concrete value. `None` if any atom
    /// is unresolved or arithmetic overflows.
    pub fn eval(&self, resolve_atom: &impl Fn(&Atom) -> Option<i64>) -> (r: Option<i64>)
        requires
            forall|i: int|
                0 <= i < self.terms().len() ==> resolve_atom.requires((&(#[trigger] self.terms()[i]).0,)),
        ensures
            forall|env: spec_fn(Atom) -> Option<i64>|
                answers_as(*resolve_atom, self.terms(), env) ==> r == #[trigger] self.eval_spec(env),
            exists|env: spec_fn(Atom) -> Option<i64>| #[trigger]
                self.eval_spec(env) == r && asked_of(
                    *resolve_atom,
                    self.terms(),
                    self.offset() as i64,
                    env,
                ),
    {
        proof {
            use_type_invariant(self);
        }
        let ghost s = self.coeffs@;
        let ghost start = self.constant;
        let ghost mut env: spec_fn(Atom) -> Option<i64> = |a: Atom| None;
        let mut acc: i64 = self.constant;
        let mut i: usize = 0;
        while i < self.coeffs.len()
            invariant
                s == self.coeffs@,
                start == self.constant,
                canonical(s),
                i <= s.len(),
                forall|k: int|
                    0 <= k < s.len() ==> resolve_atom.requires((&(#[trigger] s[k]).0,)),
                eval_prefix(s, i as int, start, env) == Some(acc),
                forall|k: int|
                    0 <= k < i ==> resolve_atom.ensures((&(#[trigger] s[k]).0,), env(s[k].0)),
            decreases s.len() - i,
        {
            let atom = self.coeffs[i].0;
            let c = self.coeffs[i].1;
            assert(resolve_atom.requires((&s[i as int].0,)));
            let answer = resolve_atom(&atom);
            proof {
                let prev = env;
                env = |a: Atom| if a == atom { answer } else { prev(a) };
                assert forall|k: int| 0 <= k < i implies env((#[trigger] s[k]).0) == prev(s[k].0) by {
                    assert(s[k].0.before(s[i as int].0));
                    atom_order_is_total(s[k].0, atom, atom);
                }
                lemma_eval_agree(s, i as int, start, prev, env);
                assert(env(s[i as int].0) == answer);
            }
            let next = match answer {
                Some(v) => match c.checked_mul(v) {
                    Some(product) => acc.checked_add(product),
                    None => None,
                },
                None => None,
            };
            assert(next == eval_prefix(s, i + 1, start, env));
            match next {
                Some(sum) => {
                    acc = sum;
                },
                None => {
                    proof {
                        lemma_eval_none(s, i + 1, s.len() as int, start, env);
                        assert forall|k: int|
                            0 <= k < s.len() && #[trigger] eval_prefix(s, k, start, env) is Some
                            implies resolve_atom.ensures((&s[k].0,), env(s[k].0)) by {
                            if k > i {
                                lemma_eval_none(s, i + 1, k, start, env);
                            }
                            assert(s[k].0 == s[k].0);
                        }
                        lemma_answers(*resolve_atom, s, start, env);
                        assert(self.eval_spec(env) == None::<i64>);
                    }
                    return None;
                },
            }
            i += 1;
        }
        proof {
            assert forall|k: int|
                0 <= k < s.len() && #[trigger] eval_prefix(s, k, start, env)
                    is Some implies resolve_atom.ensures((&s[k].0,), env(s[k].0)) by {
                assert(s[k].0 == s[k].0);
            }
            lemma_answers(*resolve_atom, s, start, env);
            assert(self.eval_spec(env) == Some(acc));
        }
        Some(acc)
    }
}

/// Environments that agree on what is asked evaluate alike.
proof fn lemma_eval_agree(
    s: Seq<(Atom, i64)>,
    n: int,
    start: i64,
    env: spec_fn(Atom) -> Option<i64>,
    other: spec_fn(Atom) -> Option<i64>,
)
    requires
        0 <= n <= s.len(),
        forall|k: int|
            0 <= k < n && eval_prefix(s, k, start, env) is Some ==> env((#[trigger] s[k]).0)
                == other(s[k].0),
    ensures
        eval_prefix(s, n, start, env) == eval_prefix(s, n, start, other),
    decreases n,
{
    if n > 0 {
        lemma_eval_agree(s, n - 1, start, env, other);
        assert(s[n - 1] == s[n - 1]);
    }
}

proof fn lemma_eval_none(
    s: Seq<(Atom, i64)>,
    m: int,
    n: int,
    start: i64,
    env: spec_fn(Atom) -> Option<i64>,
)
    requires
        0 <= m <= n,
        eval_prefix(s, m, start, env) is None,
    ensures
        eval_prefix(s, n, start, env) is None,
    decreases n,
{
    if m < n {
        lemma_eval_none(s, m, n - 1, start, env);
    }
}

/// A resolver whose answers are those of one environment evaluates as it does.
proof fn lemma_answers<F: Fn(&Atom) -> Option<i64>>(
    resolve: F,
    s: Seq<(Atom, i64)>,
    start: i64,
    env: spec_fn(Atom) -> Option<i64>,
)
    requires
        asked_of(resolve, s, start, env),
    ensures
        forall|other: spec_fn(Atom) -> Option<i64>|
            answers_as(resolve, s, other) ==> eval_prefix(s, s.len() as int, start, env)
                == #[trigger] eval_prefix(s, s.len() as int, start, other),
{
    assert forall|other: spec_fn(Atom) -> Option<i64>| answers_as(resolve, s, other) implies eval_prefix(
        s,
        s.len() as int,
        start,
        env,
    ) == #[trigger] eval_prefix(s, s.len() as int, start, other) by {
        assert forall|k: int|
            0 <= k < s.len() && eval_prefix(s, k, start, env) is Some implies env(
            (#[trigger] s[k]).0,
        ) == other(s[k].0) by {
            assert(resolve.ensures((&s[k].0,), env(s[k].0)));
        }
        lemma_eval_agree(s, s.len() as int, start, env, other);
    }
}

impl Clone for Term {
    fn clone(&self) -> (r: Self)
        ensures
            r.terms() == self.terms(),
            r.offset() == self.offset(),
    {
        proof {
            use_type_invariant(self);
        }
        let mut coeffs: Vec<(Atom, i64)> = Vec::new();
        let mut i: usize = 0;
        while i < self.coeffs.len()
            invariant
                i <= self.coeffs.len(),
                coeffs@ == self.coeffs@.take(i as int),
            decreases self.coeffs.len() - i,
        {
            coeffs.push(self.coeffs[i]);
            assert(self.coeffs@.take(i + 1) =~= self.coeffs@.take(i as int).push(
                self.coeffs@[i as int],
            ));
            i += 1;
        }
        assert(self.coeffs@.take(i as int) =~= self.coeffs@);
        Term { coeffs, constant: self.constant }
    }
}

impl Default for Term {
    /// The constant term 0.
    fn default() -> (r: Self)
        ensures
            r.wf(),
            r.terms() == Seq::<(Atom, i64)>::empty(),
            r.offset() == 0,
    {
        Term::constant(0)
    }
}

/// What `i64` holds never overflows.
proof fn lemma_combination_fits(t: Term, p: int, a: Term, q: int, b: Term)
    requires
        t.combines(p, a, q, b),
    ensures
        !Term::overflows(p, a, q, b),
{
    assert forall|x: Atom| fits(p * #[trigger] a.coeff(x) + q * b.coeff(x)) by {
        lemma_lookup_fits(t.terms(), x);
        assert(t.coeff(x) == p * a.coeff(x) + q * b.coeff(x));
    }
}

proof fn lemma_lookup_fits(s: Seq<(Atom, i64)>, a: Atom)
    ensures
        fits(lookup(s, a)),
    decreases s.len(),
{
    if s.len() > 0 {
        lemma_lookup_fits(s.drop_last(), a);
    }
}

/// Taking one more entry, where it is the one for `atom`.
proof fn lemma_take_next(s: Seq<(Atom, i64)>, i: int, taken: bool, atom: Atom)
    requires
        canonical(s),
        0 <= i <= s.len(),
        taken ==> i < s.len() && s[i].0 == atom,
        !taken ==> i > 0 ==> s[i - 1].0.before(atom),
    ensures
        lookup(s.take(i), atom) == 0,
        taken ==> forall|x: Atom| #[trigger] lookup(s.take(i + 1), x) == if x == atom {
            s[i].1 as int
        } else {
            lookup(s.take(i), x)
        },
{
    let t = s.take(i);
    assert(canonical(t)) by {
        assert forall|k: int, l: int| 0 <= k < l < t.len() implies (#[trigger] t[k]).0.before(
            (#[trigger] t[l]).0,
        ) by {
            assert(s[k].0.before(s[l].0));
        }
        assert forall|k: int| 0 <= k < t.len() implies (#[trigger] t[k]).1 != 0 by {
            assert(s[k].1 != 0);
        }
    }
    if taken {
        if i > 0 {
            assert(s[i - 1].0.before(s[i].0));
        }
        assert(s.take(i + 1) =~= t.push(s[i]));
        lemma_push_lookup(t, atom, s[i].1);
    }
    lemma_lookup_beyond(t, atom);
}

/// The coefficient of `atom`, found at entry `i` or known to be absent.
proof fn lemma_coeff_at(s: Seq<(Atom, i64)>, i: int, taken: bool, atom: Atom)
    requires
        canonical(s),
        0 <= i <= s.len(),
        taken ==> i < s.len() && s[i].0 == atom,
        !taken ==> (i > 0 ==> s[i - 1].0.before(atom)) && (i < s.len() ==> atom.before(s[i].0)),
    ensures
        lookup(s, atom) == if taken {
            s[i].1 as int
        } else {
            0
        },
{
    if taken {
        lemma_lookup_present(s, i);
    } else {
        assert forall|k: int| 0 <= k < s.len() implies (#[trigger] s[k]).0 != atom by {
            if k < i {
                if k < i - 1 {
                    assert(s[k].0.before(s[i - 1].0));
                    atom_order_is_total(s[k].0, s[i - 1].0, atom);
                }
                atom_order_is_total(s[k].0, atom, atom);
            } else {
                if i < k {
                    assert(s[i].0.before(s[k].0));
                    atom_order_is_total(atom, s[i].0, s[k].0);
                }
                atom_order_is_total(atom, s[k].0, atom);
            }
        }
        lemma_lookup_absent(s, atom);
    }
}

/// `stage` is the latest stage of the atoms of `s`, `Jit` where there is none.
pub open spec fn is_latest_stage(s: Seq<(Atom, i64)>, stage: Stage) -> bool {
    &&& s.len() == 0 ==> stage == Stage::Jit
    &&& s.len() > 0 ==> exists|i: int| 0 <= i < s.len() && (#[trigger] s[i]).0.stage_of() == stage
    &&& forall|i: int| 0 <= i < s.len() ==> (#[trigger] s[i]).0.stage_of().rank() <= stage.rank()
}

/// A relation over canonical [`Term`]s. Constructors put each predicate into a
/// canonical representative, so structurally equal predicates compare equal.
#[derive(Debug, PartialEq, Eq, Hash)]
pub enum Predicate {
    /// `term == 0`. Equalities `a == b` are stored as `Zero(a - b)`.
    Zero(Term),
    /// `term != 0`. For a non-negative operand this is `term > 0`.
    Nonzero(Term),
    /// `term > 0` (strict): the canonical form of `a < b`, stored as
    /// `Positive(b - a)`. Not sign-invariant.
    Positive(Term),
    /// `term % divisor == 0`, with `divisor >= 1`.
    DivisibleBy { term: Term, divisor: i64 },
}

impl Predicate {
    /// The term the predicate speaks of.
    pub open spec fn subject(self) -> Term {
        match self {
            Predicate::Zero(t) => t,
            Predicate::Nonzero(t) => t,
            Predicate::Positive(t) => t,
            Predicate::DivisibleBy { term, .. } => term,
        }
    }

    /// The term is canonical and a divisor is at least 1.
    pub open spec fn wf(self) -> bool {
        &&& self.subject().wf()
        &&& self matches Predicate::DivisibleBy { divisor, .. } ==> divisor >= 1
    }

    /// What the predicate says of a value of its term.
    pub open spec fn decides(self, v: int) -> bool {
        match self {
            Predicate::Zero(_) => v == 0,
            Predicate::Nonzero(_) => v != 0,
            Predicate::Positive(_) => v > 0,
            Predicate::DivisibleBy { divisor, .. } => v % (divisor as int) == 0,
        }
    }

    /// The mathematical meaning of the predicate.
    pub open spec fn holds(self, env: spec_fn(Atom) -> int) -> bool {
        self.decides(self.subject().value(env))
    }

    /// The checked evaluation of the predicate.
    pub open spec fn eval_spec(self, env: spec_fn(Atom) -> Option<i64>) -> Option<bool> {
        match self.subject().eval_spec(env) {
            Some(v) => Some(self.decides(v as int)),
            None => None,
        }
    }

    /// Same variant, same divisor, and structurally equal terms.
    pub open spec fn same_as(self, other: Predicate) -> bool {
        &&& same_term(self.subject(), other.subject())
        &&& match (self, other) {
            (Predicate::Zero(_), Predicate::Zero(_)) => true,
            (Predicate::Nonzero(_), Predicate::Nonzero(_)) => true,
            (Predicate::Positive(_), Predicate::Positive(_)) => true,
            (
                Predicate::DivisibleBy { divisor: d, .. },
                Predicate::DivisibleBy { divisor: e, .. },
            ) => d == e,
            _ => false,
        }
    }

    /// `self` is the canonical form of `a == b`.
    pub open spec fn is_eq(self, a: Term, b: Term) -> bool {
        &&& self is Zero
        &&& self.wf()
        &&& exists|d: Term|
            d.wf() && #[trigger] d.combines(1, a, -1, b) && d.sign_canonical_is(self.subject())
    }

    /// `self` is the canonical form of `term % divisor == 0`.
    pub open spec fn is_divisible_by(self, term: Term, divisor: int) -> bool {
        &&& self matches Predicate::DivisibleBy { divisor: d, .. } && d == divisor
        &&& self.wf()
        &&& self.subject().offset() == term.offset() % divisor
        &&& forall|x: Atom| #[trigger] self.subject().coeff(x) == term.coeff(x) % divisor
    }

    /// `self` is the canonical form of `a <= b`: `Positive(b + 1 - a)`.
    pub open spec fn is_le(self, a: Term, b: Term) -> bool {
        &&& self is Positive
        &&& self.wf()
        &&& self.subject().offset() == b.offset() + 1 - a.offset()
        &&& forall|x: Atom| #[trigger] self.subject().coeff(x) == b.coeff(x) - a.coeff(x)
    }

    /// `a == b`, canonicalized as `Zero(sign_canonical(a - b))`. `None` on
    /// overflow forming `a - b`.
    pub fn eq(a: &Term, b: &Term) -> (r: Option<Predicate>)
        ensures
            r is None <==> Term::difference_overflows(*a, *b),
            r matches Some(p) ==> p.is_eq(*a, *b),
    {
        proof {
            use_type_invariant(a);
            use_type_invariant(b);
        }
        match a.sub(b) {
            Some(difference) => {
                let r = Predicate::Zero(difference.sign_canonical());
                assert(difference.combines(1, *a, -1, *b));
                Some(r)
            },
            None => None,
        }
    }

    /// `term != 0` (for a non-negative operand, `term > 0`).
    pub fn nonzero(term: Term) -> (r: Predicate)
        ensures
            r is Nonzero,
            r.wf(),
            term.sign_canonical_is(r.subject()),
    {
        proof {
            use_type_invariant(&term);
        }
        Predicate::Nonzero(term.sign_canonical())
    }

    /// `a < b`, canonicalized as `Positive(b - a)`. `None` on overflow forming
    /// `b - a`.
    pub fn lt(a: &Term, b: &Term) -> (r: Option<Predicate>)
        ensures
            r is None <==> Term::difference_overflows(*b, *a),
            r matches Some(p) ==> p is Positive && p.wf() && p.subject().combines(1, *b, -1, *a),
    {
        proof {
            use_type_invariant(a);
            use_type_invariant(b);
        }
        match b.sub(a) {
            Some(difference) => Some(Predicate::Positive(difference)),
            None => None,
        }
    }

    /// `b + 1 - a` is not formed: `b + 1`, `-a` or the sum leaves `i64`.
    pub open spec fn le_overflows(a: Term, b: Term) -> bool {
        ||| !fits(b.offset() + 1)
        ||| Term::overflows(-1, a, 0, a)
        ||| !fits(b.offset() + 1 - a.offset())
        ||| exists|x: Atom| !fits(#[trigger] b.coeff(x) - a.coeff(x))
    }

    /// `a <= b` over integers, canonicalized as `a < b + 1`, i.e.
    /// `Positive(b - a + 1)`. `None` on overflow.
    pub fn le(a: &Term, b: &Term) -> (r: Option<Predicate>)
        ensures
            r is None <==> Predicate::le_overflows(*a, *b),
            r matches Some(p) ==> p.is_le(*a, *b),
    {
        proof {
            use_type_invariant(a);
            use_type_invariant(b);
        }
        let one = Term::constant(1);
        proof {
            assert forall|x: Atom| fits(1 * #[trigger] b.coeff(x) + 1 * one.coeff(x)) by {
                lemma_lookup_fits(b.terms(), x);
            }
        }
        match b.add(&one) {
            Some(successor) => {
                proof {
                    assert forall|x: Atom| #[trigger] successor.coeff(x) == b.coeff(x) by {}
                    if exists|x: Atom| !fits(#[trigger] b.coeff(x) - a.coeff(x)) {
                        let x = choose|x: Atom| !fits(#[trigger] b.coeff(x) - a.coeff(x));
                        assert(!fits(1 * successor.coeff(x) + -1 * a.coeff(x)));
                    }
                    if exists|x: Atom| !fits(1 * #[trigger] successor.coeff(x) + -1 * a.coeff(x)) {
                        let x = choose|x: Atom|
                            !fits(1 * #[trigger] successor.coeff(x) + -1 * a.coeff(x));
                        assert(!fits(b.coeff(x) - a.coeff(x)));
                    }
                }
                match successor.sub(a) {
                    Some(difference) => {
                        let r = Predicate::Positive(difference);
                        assert forall|x: Atom| #[trigger] r.subject().coeff(x) == b.coeff(x)
                            - a.coeff(x) by {
                            assert(difference.coeff(x) == 1 * successor.coeff(x) + -1 * a.coeff(x));
                        }
                        Some(r)
                    },
                    None => None,
                }
            },
            None => None,
        }
    }

    /// `term % divisor == 0`. Coefficients and constant are reduced modulo
    /// `divisor` into `[0, divisor)`, giving a canonical residue term. `None` if
    /// `divisor < 1`.
    pub fn divisible_by(term: Term, divisor: i64) -> (r: Option<Predicate>)
        ensures
            r is None <==> divisor < 1,
            r matches Some(p) ==> p.is_divisible_by(term, divisor as int),
    {
        proof {
            use_type_invariant(&term);
        }
        if divisor < 1 {
            return None;
        }
        let ghost s = term.coeffs@;
        proof {
            vstd::arithmetic::div_mod::lemma_small_mod(0, divisor as nat);
        }
        let mut coeffs: Vec<(Atom, i64)> = Vec::new();
        let mut i: usize = 0;
        while i < term.coeffs.len()
            invariant
                s == term.coeffs@,
                canonical(s),
                divisor >= 1,
                i <= s.len(),
                canonical(coeffs@),
                coeffs@.len() > 0 && i < s.len() ==> coeffs@.last().0.before(s[i as int].0),
                forall|k: int| 0 <= k < coeffs@.len() ==> (#[trigger] coeffs@[k]).1 > 0,
                forall|x: Atom| #[trigger]
                    lookup(coeffs@, x) == lookup(s.take(i as int), x) % (divisor as int),
            decreases s.len() - i,
        {
            let (atom, c) = term.coeffs[i];
            proof {
                lemma_take_next(s, i as int, true, atom);
                vstd::arithmetic::div_mod::lemma_mod_bound(c as int, divisor as int);
                vstd::arithmetic::div_mod::lemma_small_mod(0, divisor as nat);
                if i + 1 < s.len() {
                    assert(s[i as int].0.before(s[i + 1].0));
                    if coeffs@.len() > 0 {
                        atom_order_is_total(coeffs@.last().0, atom, s[i + 1].0);
                    }
                }
            }
            if let Some(residue) = c.checked_rem_euclid(divisor) {
                assert(residue == c as int % divisor as int);
                proof {
                    lemma_push_lookup(coeffs@, atom, residue);
                    if residue != 0 {
                        lemma_push_canonical(coeffs@, atom, residue);
                    }
                    assert(lookup(coeffs@, atom) == 0);
                }
                if residue != 0 {
                    coeffs.push((atom, residue));
                }
            }
            i += 1;
        }
        proof {
            assert(s.take(i as int) =~= s);
            vstd::arithmetic::div_mod::lemma_mod_bound(term.constant as int, divisor as int);
        }
        let constant = match term.constant.checked_rem_euclid(divisor) {
            Some(residue) => residue,
            None => 0,
        };
        let reduced = Term { coeffs, constant };
        assert(reduced.leading() >= 0);
        let canonical_term = reduced.sign_canonical();
        let r = Predicate::DivisibleBy { term: canonical_term, divisor };
        assert forall|x: Atom| #[trigger] r.subject().coeff(x) == term.coeff(x) % (divisor as int) by {
            assert(lookup(reduced.coeffs@, x) == lookup(s, x) % (divisor as int));
        }
        Some(r)
    }

    /// The stage at which this predicate can be decided (its term's stage).
    pub fn stage(&self) -> (r: Stage)
        ensures
            is_latest_stage(self.subject().terms(), r),
    {
        match self {
            Predicate::Zero(t) | Predicate::Nonzero(t) | Predicate::Positive(t) => t.stage(),
            Predicate::DivisibleBy { term, .. } => term.stage(),
        }
    }

    /// The atoms the predicate reads, in order.
    pub fn atoms(&self) -> (r: Vec<Atom>)
        ensures
            r@ == self.subject().terms().map_values(|e: (Atom, i64)| e.0),
    {
        match self {
            Predicate::Zero(t)
            | Predicate::Nonzero(t)
            | Predicate::Positive(t)
            | Predicate::DivisibleBy { term: t, .. } => t.atoms(),
        }
    }

    /// Evaluate the predicate against an atom resolver (used to fold at JIT and
    /// to check tensor extents at launch). `None` if any atom is unresolved or
    /// arithmetic overflows.
    pub fn eval(&self, resolve_atom: &impl Fn(&Atom) -> Option<i64>) -> (r: Option<bool>)
        requires
            *self matches Predicate::DivisibleBy { divisor, .. } ==> divisor >= 1,
            forall|i: int|
                0 <= i < self.subject().terms().len() ==> resolve_atom.requires(
                    (&(#[trigger] self.subject().terms()[i]).0,),
                ),
        ensures
            forall|env: spec_fn(Atom) -> Option<i64>|
                answers_as(*resolve_atom, self.subject().terms(), env) ==> r
                    == #[trigger] self.eval_spec(env),
            exists|env: spec_fn(Atom) -> Option<i64>| #[trigger]
                self.eval_spec(env) == r && asked_of(
                    *resolve_atom,
                    self.subject().terms(),
                    self.subject().offset() as i64,
                    env,
                ),
    {
        let value = match self {
            Predicate::Zero(t)
            | Predicate::Nonzero(t)
            | Predicate::Positive(t)
            | Predicate::DivisibleBy { term: t, .. } => t.eval(resolve_atom),
        };
        let r = match value {
            Some(v) => Some(
                match self {
                    Predicate::Zero(_) => v == 0,
                    Predicate::Nonzero(_) => v != 0,
                    Predicate::Positive(_) => v > 0,
                    Predicate::DivisibleBy { divisor, .. } => {
                        proof {
                            vstd::arithmetic::div_mod::lemma_mod_bound(v as int, *divisor as int);
                        }
                        match v.checked_rem_euclid(*divisor) {
                            Some(residue) => residue == 0,
                            None => false,
                        }
                    },
                },
            ),
            None => None,
        };
        proof {
            let subject = self.subject();
            let env = choose|env: spec_fn(Atom) -> Option<i64>| #[trigger]
                subject.eval_spec(env) == value && asked_of(
                    *resolve_atom,
                    subject.terms(),
                    subject.offset() as i64,
                    env,
                );
            assert(self.eval_spec(env) == r);
            assert forall|other: spec_fn(Atom) -> Option<i64>|
                answers_as(*resolve_atom, subject.terms(), other) implies r
                == #[trigger] self.eval_spec(other) by {
                assert(value == subject.eval_spec(other));
            }
        }
        r
    }
}

impl Clone for Predicate {
    fn clone(&self) -> (r: Self)
        ensures
            r.same_as(*self),
    {
        match self {
            Predicate::Zero(t) => Predicate::Zero(t.clone()),
            Predicate::Nonzero(t) => Predicate::Nonzero(t.clone()),
            Predicate::Positive(t) => Predicate::Positive(t.clone()),
            Predicate::DivisibleBy { term, divisor } => Predicate::DivisibleBy {
                term: term.clone(),
                divisor: *divisor,
            },
        }
    }
}

/// A predicate hoisted out of the device kernel to the host launcher, with a
/// diagnostic `cause` rendered if it fails.
#[derive(Debug, PartialEq, Eq)]
pub struct LaunchCheck {
    pub predicate: Predicate,
    pub cause: String,
}

impl Clone for LaunchCheck {
    fn clone(&self) -> (r: Self)
        ensures
            r.predicate.same_as(self.predicate),
            r.cause@ == self.cause@,
    {
        LaunchCheck { predicate: self.predicate.clone(), cause: self.cause.clone() }
    }
}

/// Structural equality of terms: the same coefficients in the same order and
/// the same constant.
pub open spec fn same_term(a: Term, b: Term) -> bool {
    a.terms() == b.terms() && a.offset() == b.offset()
}

/// Two canonical terms have the same value in every environment exactly when
/// they are structurally equal.
pub proof fn semantic_equality_is_structural_equality(a: Term, b: Term)
    requires
        a.wf(),
        b.wf(),
    ensures
        same_term(a, b) <==> forall|env: spec_fn(Atom) -> int| a.value(env) == b.value(env),
{
    if forall|env: spec_fn(Atom) -> int| a.value(env) == b.value(env) {
        let zero = |x: Atom| 0int;
        lemma_dot_zero(a.terms(), zero);
        lemma_dot_zero(b.terms(), zero);
        assert(a.value(zero) == b.value(zero));
        assert forall|x: Atom| lookup(a.terms(), x) == lookup(b.terms(), x) by {
            let ind = |y: Atom| if y == x { 1int } else { 0 };
            lemma_dot_indicator(a.terms(), x, ind);
            lemma_dot_indicator(b.terms(), x, ind);
            assert(a.value(ind) == b.value(ind));
        }
        lemma_canonical_unique(a.terms(), b.terms());
    }
}

/// The algebra computes what it says: a term that combines two others
/// coefficient by coefficient has the combined value in every environment.
pub proof fn combination_has_the_combined_value(t: Term, p: int, a: Term, q: int, b: Term)
    requires
        t.wf(),
        a.wf(),
        b.wf(),
        t.combines(p, a, q, b),
    ensures
        forall|env: spec_fn(Atom) -> int| #[trigger]
            t.value(env) == p * a.value(env) + q * b.value(env),
{
    assert forall|env: spec_fn(Atom) -> int| #[trigger]
        t.value(env) == p * a.value(env) + q * b.value(env) by {
        assert forall|x: Atom| #[trigger] lookup(t.terms(), x) == p * lookup(a.terms(), x) + q
            * lookup(b.terms(), x) by {
            assert(t.coeff(x) == p * a.coeff(x) + q * b.coeff(x));
        }
        lemma_dot_linear(t.terms(), a.terms(), b.terms(), p, q, env);
        let (da, db) = (dot(a.terms(), env), dot(b.terms(), env));
        let (oa, ob) = (a.offset(), b.offset());
        assert((p * da + q * db) + (p * oa + q * ob) == p * (da + oa) + q * (db + ob))
            by (nonlinear_arith);
    }
}

/// Confluence: terms with the same coefficients and constant are one term,
/// however they were built.
pub proof fn equal_coefficients_give_one_term(s: Term, t: Term)
    requires
        s.wf(),
        t.wf(),
        s.offset() == t.offset(),
        forall|x: Atom| #[trigger] s.coeff(x) == t.coeff(x),
    ensures
        same_term(s, t),
{
    assert forall|x: Atom| lookup(s.terms(), x) == lookup(t.terms(), x) by {
        assert(s.coeff(x) == t.coeff(x));
    }
    lemma_canonical_unique(s.terms(), t.terms());
}

/// `a + b` and `b + a` are one term.
pub proof fn addition_is_commutative(s: Term, t: Term, a: Term, b: Term)
    requires
        s.wf(),
        t.wf(),
        s.combines(1, a, 1, b),
        t.combines(1, b, 1, a),
    ensures
        same_term(s, t),
{
    assert forall|x: Atom| #[trigger] s.coeff(x) == t.coeff(x) by {
        assert(t.coeff(x) == 1 * b.coeff(x) + 1 * a.coeff(x));
    }
    equal_coefficients_give_one_term(s, t);
}

/// `(a + b) + c` and `a + (b + c)` are one term, where both are formed.
pub proof fn addition_is_associative(
    a: Term,
    b: Term,
    c: Term,
    ab: Term,
    bc: Term,
    left: Term,
    right: Term,
)
    requires
        left.wf(),
        right.wf(),
        ab.combines(1, a, 1, b),
        bc.combines(1, b, 1, c),
        left.combines(1, ab, 1, c),
        right.combines(1, a, 1, bc),
    ensures
        same_term(left, right),
{
    assert forall|x: Atom| #[trigger] left.coeff(x) == right.coeff(x) by {
        assert(right.coeff(x) == 1 * a.coeff(x) + 1 * bc.coeff(x));
        assert(ab.coeff(x) == 1 * a.coeff(x) + 1 * b.coeff(x));
        assert(bc.coeff(x) == 1 * b.coeff(x) + 1 * c.coeff(x));
    }
    equal_coefficients_give_one_term(left, right);
}

/// `a - a` is the constant 0: like terms cancel and leave no zero coefficient.
pub proof fn like_terms_cancel(t: Term, a: Term)
    requires
        t.wf(),
        t.combines(1, a, -1, a),
    ensures
        t.terms() == Seq::<(Atom, i64)>::empty(),
        t.offset() == 0,
{
    if t.terms().len() > 0 {
        let x = t.terms()[0].0;
        lemma_lookup_present(t.terms(), 0);
        assert(t.coeff(x) == 1 * a.coeff(x) + -1 * a.coeff(x));
    }
    assert(t.terms() =~= Seq::<(Atom, i64)>::empty());
}

/// Negating twice gives the term back.
pub proof fn negation_is_an_involution(a: Term, n: Term, m: Term)
    requires
        a.wf(),
        m.wf(),
        n.combines(-1, a, 0, a),
        m.combines(-1, n, 0, n),
    ensures
        same_term(m, a),
{
    assert forall|x: Atom| #[trigger] m.coeff(x) == a.coeff(x) by {
        assert(n.coeff(x) == -1 * a.coeff(x) + 0 * a.coeff(x));
    }
    equal_coefficients_give_one_term(m, a);
}

/// The leading coefficients of a term and its negation are opposite.
proof fn lemma_leading_of_negation(a: Term, n: Term)
    requires
        a.wf(),
        n.wf(),
        n.combines(-1, a, 0, a),
    ensures
        n.leading() == -a.leading(),
        !Term::overflows(-1, n, 0, n),
        !Term::overflows(-1, a, 0, a),
{
    lemma_combination_fits(n, -1, a, 0, a);
    assert forall|x: Atom| #[trigger] n.coeff(x) == -a.coeff(x) by {
        assert(n.coeff(x) == -1 * a.coeff(x) + 0 * a.coeff(x));
    }
    assert(a.combines(-1, n, 0, n)) by {
        assert forall|x: Atom| #[trigger] a.coeff(x) == -1 * n.coeff(x) + 0 * n.coeff(x) by {
            assert(n.coeff(x) == -a.coeff(x));
        }
    }
    lemma_combination_fits(a, -1, n, 0, n);
    let (s, t) = (a.terms(), n.terms());
    if s.len() > 0 {
        let x = s[0].0;
        lemma_lookup_present(s, 0);
        assert(n.coeff(x) == -a.coeff(x));
        let i = lemma_lookup_entry(t, x);
        let y = t[0].0;
        lemma_lookup_present(t, 0);
        assert(n.coeff(y) == -a.coeff(y));
        let j = lemma_lookup_entry(s, y);
        if i > 0 && j > 0 {
            assert(t[0].0.before(t[i].0));
            assert(s[0].0.before(s[j].0));
            atom_order_is_total(x, y, x);
        }
        assert(x == y);
    } else if t.len() > 0 {
        let y = t[0].0;
        lemma_lookup_present(t, 0);
        assert(n.coeff(y) == -a.coeff(y));
        let j = lemma_lookup_entry(s, y);
    }
}

/// A term and its negation have one sign-canonical representative.
pub proof fn sign_canonical_is_sign_invariant(a: Term, n: Term, ca: Term, cn: Term)
    requires
        a.wf(),
        n.wf(),
        n.combines(-1, a, 0, a),
        ca.wf(),
        cn.wf(),
        a.sign_canonical_is(ca),
        n.sign_canonical_is(cn),
    ensures
        same_term(ca, cn),
{
    lemma_leading_of_negation(a, n);
    assert forall|x: Atom| #[trigger] ca.coeff(x) == cn.coeff(x) by {
        assert(n.coeff(x) == -1 * a.coeff(x) + 0 * a.coeff(x));
        if a.leading() < 0 {
            assert(ca.coeff(x) == -1 * a.coeff(x) + 0 * a.coeff(x));
        } else if a.leading() > 0 {
            assert(cn.coeff(x) == -1 * n.coeff(x) + 0 * n.coeff(x));
        } else {
            lemma_zero_leading(a);
            lemma_zero_leading(n);
        }
    }
    if a.leading() == 0 {
        lemma_zero_leading(a);
        lemma_zero_leading(n);
    }
    equal_coefficients_give_one_term(ca, cn);
}

/// Only the constant 0 has leading coefficient 0.
proof fn lemma_zero_leading(a: Term)
    requires
        a.wf(),
        a.leading() == 0,
    ensures
        a.terms().len() == 0,
        a.offset() == 0,
{
    if a.terms().len() > 0 {
        assert(a.terms()[0].1 != 0);
    }
}

/// `a == b` and `b == a` are one predicate, where both are formed.
pub proof fn equality_is_symmetric(a: Term, b: Term, p: Predicate, q: Predicate)
    requires
        p.is_eq(a, b),
        q.is_eq(b, a),
    ensures
        p.same_as(q),
{
    let d = choose|d: Term|
        d.wf() && #[trigger] d.combines(1, a, -1, b) && d.sign_canonical_is(p.subject());
    let e = choose|e: Term|
        e.wf() && #[trigger] e.combines(1, b, -1, a) && e.sign_canonical_is(q.subject());
    assert(e.combines(-1, d, 0, d)) by {
        assert forall|x: Atom| #[trigger] e.coeff(x) == -1 * d.coeff(x) + 0 * d.coeff(x) by {
            assert(e.coeff(x) == 1 * b.coeff(x) + -1 * a.coeff(x));
            assert(d.coeff(x) == 1 * a.coeff(x) + -1 * b.coeff(x));
        }
    }
    sign_canonical_is_sign_invariant(d, e, p.subject(), q.subject());
}

/// `term != 0` and `-term != 0` are one predicate, where `-term` is formed.
pub proof fn nonzero_is_sign_invariant(a: Term, n: Term, p: Predicate, q: Predicate)
    requires
        a.wf(),
        n.wf(),
        n.combines(-1, a, 0, a),
        p is Nonzero && p.wf() && a.sign_canonical_is(p.subject()),
        q is Nonzero && q.wf() && n.sign_canonical_is(q.subject()),
    ensures
        p.same_as(q),
{
    sign_canonical_is_sign_invariant(a, n, p.subject(), q.subject());
}

/// Sign canonicalization keeps whether a value is zero.
proof fn lemma_sign_canonical_value(d: Term, t: Term, env: spec_fn(Atom) -> int)
    requires
        d.wf(),
        t.wf(),
        d.sign_canonical_is(t),
    ensures
        t.value(env) == d.value(env) || t.value(env) == -d.value(env),
{
    if d.leading() < 0 && !Term::overflows(-1, d, 0, d) {
        combination_has_the_combined_value(t, -1, d, 0, d);
        assert(t.value(env) == -1 * d.value(env) + 0 * d.value(env));
    }
}

/// `a == b` holds in an environment exactly when the two values are equal.
pub proof fn equality_means_equal_values(a: Term, b: Term, p: Predicate)
    requires
        a.wf(),
        b.wf(),
        p.is_eq(a, b),
    ensures
        forall|env: spec_fn(Atom) -> int| #[trigger]
            p.holds(env) <==> a.value(env) == b.value(env),
{
    let d = choose|d: Term|
        d.wf() && #[trigger] d.combines(1, a, -1, b) && d.sign_canonical_is(p.subject());
    combination_has_the_combined_value(d, 1, a, -1, b);
    assert forall|env: spec_fn(Atom) -> int| #[trigger] p.holds(env) <==> a.value(env) == b.value(
        env,
    ) by {
        lemma_sign_canonical_value(d, p.subject(), env);
        assert(d.value(env) == 1 * a.value(env) + -1 * b.value(env));
    }
}

/// `term != 0` holds in an environment exactly when the value is not 0.
pub proof fn nonzero_means_nonzero_value(a: Term, p: Predicate)
    requires
        a.wf(),
        p is Nonzero && p.wf() && a.sign_canonical_is(p.subject()),
    ensures
        forall|env: spec_fn(Atom) -> int| #[trigger] p.holds(env) <==> a.value(env) != 0,
{
    assert forall|env: spec_fn(Atom) -> int| #[trigger] p.holds(env) <==> a.value(env) != 0 by {
        lemma_sign_canonical_value(a, p.subject(), env);
    }
}

/// `a < b` holds in an environment exactly when the values are so ordered, and
/// never together with `b < a`: the predicate is directional.
pub proof fn lt_means_strictly_less(a: Term, b: Term, p: Predicate)
    requires
        a.wf(),
        b.wf(),
        p is Positive && p.wf() && p.subject().combines(1, b, -1, a),
    ensures
        forall|env: spec_fn(Atom) -> int| #[trigger] p.holds(env) <==> a.value(env) < b.value(env),
{
    combination_has_the_combined_value(p.subject(), 1, b, -1, a);
    assert forall|env: spec_fn(Atom) -> int| #[trigger] p.holds(env) <==> a.value(env) < b.value(
        env,
    ) by {
        assert(p.subject().value(env) == 1 * b.value(env) + -1 * a.value(env));
    }
}

/// `a < b` and `b < a` are one predicate only where `a` and `b` are one term.
pub proof fn lt_is_directional(a: Term, b: Term, p: Predicate, q: Predicate)
    requires
        a.wf(),
        b.wf(),
        p is Positive && p.wf() && p.subject().combines(1, b, -1, a),
        q is Positive && q.wf() && q.subject().combines(1, a, -1, b),
    ensures
        p.same_as(q) <==> same_term(a, b),
{
    let (s, t) = (p.subject(), q.subject());
    if p.same_as(q) {
        assert forall|x: Atom| #[trigger] a.coeff(x) == b.coeff(x) by {
            assert(s.coeff(x) == 1 * b.coeff(x) + -1 * a.coeff(x));
            assert(t.coeff(x) == 1 * a.coeff(x) + -1 * b.coeff(x));
        }
        equal_coefficients_give_one_term(a, b);
    }
    if same_term(a, b) {
        assert forall|x: Atom| #[trigger] s.coeff(x) == t.coeff(x) by {
            assert(t.coeff(x) == 1 * a.coeff(x) + -1 * b.coeff(x));
        }
        equal_coefficients_give_one_term(s, t);
    }
}

/// `a <= b` holds in an environment exactly when the values are so ordered.
pub proof fn le_means_at_most(a: Term, b: Term, p: Predicate)
    requires
        a.wf(),
        b.wf(),
        p.is_le(a, b),
    ensures
        forall|env: spec_fn(Atom) -> int| #[trigger] p.holds(env) <==> a.value(env) <= b.value(env),
{
    let t = p.subject();
    assert forall|env: spec_fn(Atom) -> int| #[trigger] p.holds(env) <==> a.value(env) <= b.value(
        env,
    ) by {
        assert forall|x: Atom| #[trigger] lookup(t.terms(), x) == 1 * lookup(b.terms(), x) + -1
            * lookup(a.terms(), x) by {
            assert(t.coeff(x) == b.coeff(x) - a.coeff(x));
        }
        lemma_dot_linear(t.terms(), b.terms(), a.terms(), 1, -1, env);
    }
}

/// `a <= a` folds without an environment: it is `Positive(1)`.
pub proof fn le_is_reflexive_without_an_environment(a: Term, p: Predicate)
    requires
        p.is_le(a, a),
    ensures
        p.subject().terms() == Seq::<(Atom, i64)>::empty(),
        p.subject().offset() == 1,
        forall|env: spec_fn(Atom) -> Option<i64>| #[trigger] p.eval_spec(env) == Some(true),
{
    let t = p.subject();
    if t.terms().len() > 0 {
        lemma_lookup_present(t.terms(), 0);
        let x = t.terms()[0].0;
        assert(t.coeff(x) == a.coeff(x) - a.coeff(x));
    }
    assert(t.terms() =~= Seq::<(Atom, i64)>::empty());
}

/// Reduction modulo the divisor keeps the meaning: the predicate holds exactly
/// when the divisor divides the value of the term it was made from.
pub proof fn divisibility_is_kept_by_reduction(a: Term, divisor: int, p: Predicate)
    requires
        a.wf(),
        divisor >= 1,
        p.is_divisible_by(a, divisor),
    ensures
        forall|env: spec_fn(Atom) -> int| #[trigger] p.holds(env) <==> a.value(env) % divisor == 0,
{
    let t = p.subject();
    assert forall|env: spec_fn(Atom) -> int| #[trigger] p.holds(env) <==> a.value(env) % divisor
        == 0 by {
        assert forall|x: Atom| (#[trigger] lookup(t.terms(), x) - lookup(a.terms(), x)) % divisor
            == 0 by {
            assert(t.coeff(x) == a.coeff(x) % divisor);
            lemma_residue_difference(a.coeff(x), divisor);
        }
        lemma_dot_mod(t.terms(), a.terms(), divisor, env);
        lemma_residue_difference(a.offset(), divisor);
        let base = dot(t.terms(), env) - dot(a.terms(), env);
        let diff = t.offset() - a.offset();
        lemma_multiples_add(base, diff, 1, divisor);
        assert(t.value(env) - a.value(env) == base + diff * 1);
        lemma_congruent(t.value(env), a.value(env), divisor);
    }
}

/// Terms whose coefficients agree modulo the divisor give one predicate.
pub proof fn congruent_terms_give_one_divisibility(
    a: Term,
    b: Term,
    divisor: int,
    p: Predicate,
    q: Predicate,
)
    requires
        divisor >= 1,
        p.is_divisible_by(a, divisor),
        q.is_divisible_by(b, divisor),
        a.offset() % divisor == b.offset() % divisor,
        forall|x: Atom| #[trigger] a.coeff(x) % divisor == b.coeff(x) % divisor,
    ensures
        p.same_as(q),
{
    let (s, t) = (p.subject(), q.subject());
    assert forall|x: Atom| #[trigger] s.coeff(x) == t.coeff(x) by {
        assert(t.coeff(x) == b.coeff(x) % divisor);
        assert(a.coeff(x) % divisor == b.coeff(x) % divisor);
    }
    equal_coefficients_give_one_term(s, t);
}

proof fn lemma_residue_difference(x: int, d: int)
    requires
        d >= 1,
    ensures
        (x % d - x) % d == 0,
{
    vstd::arithmetic::div_mod::lemma_fundamental_div_mod(x, d);
    assert(x % d - x == (-(x / d)) * d) by (nonlinear_arith)
        requires
            x == d * (x / d) + x % d,
    ;
    vstd::arithmetic::div_mod::lemma_mod_multiples_basic(-(x / d), d);
}

proof fn lemma_congruent(x: int, y: int, d: int)
    requires
        d >= 1,
        (x - y) % d == 0,
    ensures
        x % d == 0 <==> y % d == 0,
{
    if y % d == 0 {
        lemma_multiples_add(x - y, y, 1, d);
    }
    if x % d == 0 {
        lemma_multiples_add(x, x - y, -1, d);
    }
}

/// The checked evaluation is exact: what it returns is the mathematical value.
pub proof fn evaluation_is_exact(
    t: Term,
    env: spec_fn(Atom) -> Option<i64>,
    values: spec_fn(Atom) -> int,
)
    requires
        t.eval_spec(env) is Some,
        forall|x: Atom| (#[trigger] env(x)) matches Some(v) ==> v == values(x),
    ensures
        t.eval_spec(env)->0 == t.value(values),
{
    lemma_eval_exact(t.terms(), t.terms().len() as int, t.offset() as i64, env, values);
    assert(t.terms().take(t.terms().len() as int) =~= t.terms());
}

proof fn lemma_eval_exact(
    s: Seq<(Atom, i64)>,
    n: int,
    start: i64,
    env: spec_fn(Atom) -> Option<i64>,
    values: spec_fn(Atom) -> int,
)
    requires
        0 <= n <= s.len(),
        eval_prefix(s, n, start, env) is Some,
        forall|x: Atom| (#[trigger] env(x)) matches Some(v) ==> v == values(x),
    ensures
        eval_prefix(s, n, start, env)->0 == start + dot(s.take(n), values),
    decreases n,
{
    if n > 0 {
        lemma_eval_exact(s, n - 1, start, env, values);
        assert(s.take(n).drop_last() =~= s.take(n - 1));
        assert(env(s[n - 1].0) is Some);
    }
}

/// A predicate that is decided is decided as it holds.
pub proof fn decision_is_sound(
    p: Predicate,
    env: spec_fn(Atom) -> Option<i64>,
    values: spec_fn(Atom) -> int,
)
    requires
        p.eval_spec(env) is Some,
        forall|x: Atom| (#[trigger] env(x)) matches Some(v) ==> v == values(x),
    ensures
        p.eval_spec(env) == Some(p.holds(values)),
{
    evaluation_is_exact(p.subject(), env, values);
}

/// An environment that knows every atom up to a term's stage knows every atom
/// of the term.
pub proof fn a_term_is_known_at_its_stage(
    t: Term,
    stage: Stage,
    env: spec_fn(Atom) -> Option<i64>,
)
    requires
        is_latest_stage(t.terms(), stage),
        forall|x: Atom| x.stage_of().rank() <= stage.rank() ==> (#[trigger] env(x)) is Some,
    ensures
        forall|i: int| 0 <= i < t.terms().len() ==> env((#[trigger] t.terms()[i]).0) is Some,
{
}

/// Evaluation is complete. Let `values` be the values of the atoms and `sums` the
/// partial sums in atom order, over the integers: the evaluation succeeds exactly
/// when every atom resolves and every product and partial sum fits `i64`, and then
/// gives the last sum, which is the value of the term.
pub proof fn evaluation_is_complete(
    t: Term,
    env: spec_fn(Atom) -> Option<i64>,
    values: Seq<int>,
    sums: Seq<int>,
)
    requires
        values.len() == t.terms().len(),
        sums.len() == t.terms().len() + 1,
        sums[0] == t.offset(),
        forall|k: int|
            0 <= k < values.len() ==> #[trigger] sums[k + 1] == sums[k] + t.terms()[k].1
                * values[k],
        forall|k: int|
            0 <= k < values.len() ==> (env((#[trigger] t.terms()[k]).0) matches Some(v) ==> v
                == values[k]),
    ensures
        t.eval_spec(env) is Some <==> forall|k: int|
            0 <= k < values.len() ==> env((#[trigger] t.terms()[k]).0) is Some && i64::MIN
                <= t.terms()[k].1 * values[k] <= i64::MAX && i64::MIN <= sums[k + 1] <= i64::MAX,
        t.eval_spec(env) matches Some(v) ==> v == sums.last(),
{
    lemma_eval_complete(t.terms(), t.terms().len() as int, t.offset() as i64, env, values, sums);
}

proof fn lemma_eval_complete(
    s: Seq<(Atom, i64)>,
    n: int,
    start: i64,
    env: spec_fn(Atom) -> Option<i64>,
    values: Seq<int>,
    sums: Seq<int>,
)
    requires
        0 <= n <= s.len(),
        values.len() == s.len(),
        sums.len() == s.len() + 1,
        sums[0] == start,
        forall|k: int| 0 <= k < s.len() ==> #[trigger] sums[k + 1] == sums[k] + s[k].1 * values[k],
        forall|k: int|
            0 <= k < s.len() ==> (env((#[trigger] s[k]).0) matches Some(v) ==> v == values[k]),
    ensures
        eval_prefix(s, n, start, env) is Some <==> forall|k: int|
            0 <= k < n ==> env((#[trigger] s[k]).0) is Some && fits(s[k].1 * values[k]) && fits(
                sums[k + 1],
            ),
        eval_prefix(s, n, start, env) matches Some(v) ==> v == sums[n],
    decreases n,
{
    if n > 0 {
        lemma_eval_complete(s, n - 1, start, env, values, sums);
        assert(sums[(n - 1) + 1] == sums[n - 1] + s[n - 1].1 * values[n - 1]);
        assert(env(s[n - 1].0) matches Some(v) ==> v == values[n - 1]);
        if eval_prefix(s, n, start, env) is Some {
            assert forall|k: int| 0 <= k < n implies env((#[trigger] s[k]).0) is Some && fits(
                s[k].1 * values[k],
            ) && fits(sums[k + 1]) by {}
        }
    }
}

/// A predicate is decided wherever its term evaluates, and says of the value what
/// its kind says: zero, not zero, positive, or a multiple of the divisor.
pub proof fn a_predicate_is_decided_wherever_its_term_is(
    t: Term,
    divisor: i64,
    env: spec_fn(Atom) -> Option<i64>,
)
    ensures
        match t.eval_spec(env) {
            None => {
                &&& Predicate::Zero(t).eval_spec(env) is None
                &&& Predicate::Nonzero(t).eval_spec(env) is None
                &&& Predicate::Positive(t).eval_spec(env) is None
                &&& (Predicate::DivisibleBy { term: t, divisor }).eval_spec(env) is None
            },
            Some(v) => {
                &&& Predicate::Zero(t).eval_spec(env) == Some(v == 0)
                &&& Predicate::Nonzero(t).eval_spec(env) == Some(v != 0)
                &&& Predicate::Positive(t).eval_spec(env) == Some(v > 0)
                &&& divisor >= 1 ==> ((Predicate::DivisibleBy { term: t, divisor }).eval_spec(env)
                    == Some(true) <==> exists|q: int| v == #[trigger] (q * divisor))
                &&& (Predicate::DivisibleBy { term: t, divisor }).eval_spec(env) is Some
            },
        },
{
    if divisor >= 1 && t.eval_spec(env) is Some {
        let v = t.eval_spec(env)->0 as int;
        let d = divisor as int;
        if v % d == 0 {
            vstd::arithmetic::div_mod::lemma_fundamental_div_mod(v, d);
            vstd::arithmetic::mul::lemma_mul_is_commutative(d, v / d);
            assert(v == (v / d) * divisor);
        }
        if exists|q: int| v == #[trigger] (q * divisor) {
            let q = choose|q: int| v == #[trigger] (q * divisor);
            vstd::arithmetic::div_mod::lemma_mod_multiples_basic(q, d);
        }
    }
}

/// The answers of a resolver are those of an environment exactly when it can give
/// no other for any atom of the term.
pub proof fn a_resolver_answers_for_every_atom<F: Fn(&Atom) -> Option<i64>>(
    resolve: F,
    s: Seq<(Atom, i64)>,
    env: spec_fn(Atom) -> Option<i64>,
)
    ensures
        answers_as(resolve, s, env) <==> forall|i: int, v: Option<i64>|
            0 <= i < s.len() && #[trigger] resolve.ensures((&s[i].0,), v) ==> v == env(s[i].0),
{
}

/// Overflow is reported only where there is no such term: a combination that is a
/// term does not overflow.
pub proof fn a_combination_that_exists_does_not_overflow(
    t: Term,
    p: int,
    a: Term,
    q: int,
    b: Term,
)
    requires
        t.combines(p, a, q, b),
    ensures
        !Term::overflows(p, a, q, b),
{
    lemma_combination_fits(t, p, a, q, b);
}

/// A difference is formed wherever `-b` and `a - b` are terms.
pub proof fn a_difference_that_exists_is_formed(n: Term, d: Term, a: Term, b: Term)
    requires
        n.combines(-1, b, 0, b),
        d.combines(1, a, -1, b),
    ensures
        !Term::difference_overflows(a, b),
{
    lemma_combination_fits(n, -1, b, 0, b);
    lemma_combination_fits(d, 1, a, -1, b);
}

/// `a <= b` is formed wherever `-a`, `b + 1` and `b + 1 - a` are terms.
pub proof fn an_order_that_exists_is_formed(n: Term, s: Term, d: Term, a: Term, b: Term)
    requires
        n.combines(-1, a, 0, a),
        s.offset() == b.offset() + 1,
        d.offset() == b.offset() + 1 - a.offset(),
        forall|x: Atom| #[trigger] d.coeff(x) == b.coeff(x) - a.coeff(x),
        fits(s.offset()),
        fits(d.offset()),
    ensures
        !Predicate::le_overflows(a, b),
{
    lemma_combination_fits(n, -1, a, 0, a);
    assert forall|x: Atom| fits(#[trigger] b.coeff(x) - a.coeff(x)) by {
        lemma_lookup_fits(d.terms(), x);
        assert(d.coeff(x) == b.coeff(x) - a.coeff(x));
    }
}

/// Terms whose coefficients and constants stay below half of `i64` always add,
/// subtract, negate and compare: nothing overflows.
pub proof fn small_terms_are_always_formed(a: Term, b: Term)
    requires
        -0x3FFF_FFFF_FFFF_FFFF <= a.offset() <= 0x3FFF_FFFF_FFFF_FFFF,
        -0x3FFF_FFFF_FFFF_FFFF <= b.offset() <= 0x3FFF_FFFF_FFFF_FFFF,
        forall|x: Atom|
            -0x3FFF_FFFF_FFFF_FFFF <= #[trigger] a.coeff(x) <= 0x3FFF_FFFF_FFFF_FFFF,
        forall|x: Atom|
            -0x3FFF_FFFF_FFFF_FFFF <= #[trigger] b.coeff(x) <= 0x3FFF_FFFF_FFFF_FFFF,
    ensures
        !Term::overflows(1, a, 1, b),
        !Term::overflows(-1, a, 0, a),
        !Term::difference_overflows(a, b),
        !Predicate::le_overflows(a, b),
{
    assert forall|x: Atom| fits(1 * #[trigger] a.coeff(x) + 1 * b.coeff(x)) by {
        assert(b.coeff(x) <= 0x3FFF_FFFF_FFFF_FFFF);
    }
    assert forall|x: Atom| fits(-1 * #[trigger] a.coeff(x) + 0 * a.coeff(x)) by {}
    assert forall|x: Atom| fits(-1 * #[trigger] b.coeff(x) + 0 * b.coeff(x)) by {}
    assert forall|x: Atom| fits(1 * #[trigger] a.coeff(x) + -1 * b.coeff(x)) by {
        assert(b.coeff(x) <= 0x3FFF_FFFF_FFFF_FFFF);
    }
    assert forall|x: Atom| fits(#[trigger] b.coeff(x) - a.coeff(x)) by {
        assert(a.coeff(x) <= 0x3FFF_FFFF_FFFF_FFFF);
    }
}

/// The coefficient of an atom is that of its entry, 0 for an atom without one.
pub proof fn a_coefficient_is_that_of_its_entry(t: Term, a: Atom)
    requires
        t.wf(),
    ensures
        forall|i: int| 0 <= i < t.terms().len() && (#[trigger] t.terms()[i]).0 == a ==> t.coeff(a)
            == t.terms()[i].1,
        (forall|i: int| 0 <= i < t.terms().len() ==> (#[trigger] t.terms()[i]).0 != a) ==> t.coeff(
            a,
        ) == 0,
{
    assert forall|i: int| 0 <= i < t.terms().len() && (#[trigger] t.terms()[i]).0 == a implies t.coeff(
        a,
    ) == t.terms()[i].1 by {
        lemma_lookup_present(t.terms(), i);
    }
    if forall|i: int| 0 <= i < t.terms().len() ==> (#[trigger] t.terms()[i]).0 != a {
        lemma_lookup_absent(t.terms(), a);
    }
}

/// Atoms are ordered by kind, in the order of the declaration, and within a kind by
/// their fields.
pub proof fn atoms_are_ordered_by_kind_and_fields(a: Atom, b: Atom)
    ensures
        match (a, b) {
            (Atom::Dim { param: p, axis: x }, Atom::Dim { param: q, axis: y }) => a.before(b)
                <==> p < q || p == q && x < y,
            (Atom::Iv(x), Atom::Iv(y)) => a.before(b) <==> x < y,
            (Atom::TileBlockId(x), Atom::TileBlockId(y)) => a.before(b) <==> x < y,
            (Atom::NumTileBlocks(x), Atom::NumTileBlocks(y)) => a.before(b) <==> x < y,
            (Atom::ViewExtent { param: p, axis: x }, Atom::ViewExtent { param: q, axis: y }) =>
                a.before(b) <==> p < q || p == q && x < y,
            (
                Atom::TileCount { param: p, axis: x, tile: s },
                Atom::TileCount { param: q, axis: y, tile: t },
            ) => a.before(b) <==> p < q || p == q && (x < y || x == y && s < t),
            (Atom::Dim { .. }, _) => a.before(b),
            (_, Atom::Dim { .. }) => !a.before(b),
            (Atom::Iv(_), _) => a.before(b),
            (_, Atom::Iv(_)) => !a.before(b),
            (Atom::TileBlockId(_), _) => a.before(b),
            (_, Atom::TileBlockId(_)) => !a.before(b),
            (Atom::NumTileBlocks(_), _) => a.before(b),
            (_, Atom::NumTileBlocks(_)) => !a.before(b),
            (Atom::ViewExtent { .. }, _) => a.before(b),
            (_, Atom::ViewExtent { .. }) => !a.before(b),
        },
{
}

/// The stage of a term is the earliest at which every atom is known.
pub proof fn a_terms_stage_is_the_earliest(t: Term, stage: Stage, bound: Stage)
    requires
        is_latest_stage(t.terms(), stage),
        forall|i: int|
            0 <= i < t.terms().len() ==> (#[trigger] t.terms()[i]).0.stage_of().rank()
                <= bound.rank(),
    ensures
        stage.rank() <= bound.rank(),
        t.terms().len() == 0 ==> stage == Stage::Jit,
        Stage::Jit.rank() < Stage::Launch.rank() < Stage::Device.rank(),
{
}

/// A sign-canonical term leads with a coefficient that is not negative, unless its
/// negation cannot be formed; it is the term itself or the negation.
pub proof fn a_canonical_sign_is_not_negative(a: Term, t: Term)
    requires
        a.wf(),
        t.wf(),
        a.sign_canonical_is(t),
    ensures
        (t.terms().len() > 0 ==> t.terms()[0].1 > 0) || Term::overflows(-1, a, 0, a),
        (t.terms().len() == 0 ==> t.offset() >= 0) || Term::overflows(-1, a, 0, a),
        (forall|env: spec_fn(Atom) -> int| #[trigger] t.value(env) == a.value(env)) || (forall|
            env: spec_fn(Atom) -> int,
        | #[trigger] t.value(env) == -a.value(env)),
{
    if a.leading() < 0 && !Term::overflows(-1, a, 0, a) {
        combination_has_the_combined_value(t, -1, a, 0, a);
        assert forall|env: spec_fn(Atom) -> int| #[trigger] t.value(env) == -a.value(env) by {
            assert(t.value(env) == -1 * a.value(env) + 0 * a.value(env));
        }
        if t.terms().len() > 0 {
            lemma_lookup_present(t.terms(), 0);
            let x = t.terms()[0].0;
            assert(t.coeff(x) == -1 * a.coeff(x) + 0 * a.coeff(x));
            assert(a.coeff(x) != 0);
            if a.terms().len() == 0 {
                assert(a.coeff(x) == 0);
            }
            lemma_lookup_present(a.terms(), 0);
            let y = a.terms()[0].0;
            assert(t.coeff(y) == -1 * a.coeff(y) + 0 * a.coeff(y));
            lemma_least_atom(a.terms(), x);
            lemma_least_atom(t.terms(), y);
            atom_order_is_total(x, y, x);
        } else {
            if a.terms().len() > 0 {
                lemma_lookup_present(a.terms(), 0);
                let y = a.terms()[0].0;
                assert(t.coeff(y) == -1 * a.coeff(y) + 0 * a.coeff(y));
            }
        }
    } else {
        assert forall|env: spec_fn(Atom) -> int| #[trigger] t.value(env) == a.value(env) by {}
    }
}

/// An atom of a canonical term does not come before its first.
proof fn lemma_least_atom(s: Seq<(Atom, i64)>, x: Atom)
    requires
        canonical(s),
        lookup(s, x) != 0,
    ensures
        s.len() > 0,
        !x.before(s[0].0),
{
    let i = lemma_lookup_found(s, x);
    if i > 0 {
        assert(s[0].0.before(s[i].0));
        atom_order_is_total(s[0].0, x, s[0].0);
    } else {
        atom_order_is_total(x, x, x);
    }
}

/// Where a coefficient is not 0 the term has an entry for the atom.
proof fn lemma_lookup_found(s: Seq<(Atom, i64)>, x: Atom) -> (i: int)
    requires
        lookup(s, x) != 0,
    ensures
        0 <= i < s.len(),
        s[i].0 == x,
    decreases s.len(),
{
    if s.len() > 0 && s.last().0 == x {
        s.len() - 1
    } else {
        lemma_lookup_found(s.drop_last(), x)
    }
}

/// A divisibility keeps residues only: every coefficient and the constant lie from 0 up
/// to the divisor, which is kept.
pub proof fn residues_lie_below_the_divisor(a: Term, divisor: int, p: Predicate, x: Atom)
    requires
        divisor >= 1,
        p.is_divisible_by(a, divisor),
    ensures
        p matches Predicate::DivisibleBy { divisor: d, .. } && d == divisor,
        0 <= p.subject().offset() < divisor,
        0 <= p.subject().coeff(x) < divisor,
        (p.subject().coeff(x) - a.coeff(x)) % divisor == 0,
        (p.subject().offset() - a.offset()) % divisor == 0,
{
    assert(p.subject().coeff(x) == a.coeff(x) % divisor);
    lemma_residue_difference(a.coeff(x), divisor);
    lemma_residue_difference(a.offset(), divisor);
}

/// The same predicate is of one kind, has one divisor and one term: it holds in the same
/// environments, and a predicate is the same as itself.
pub proof fn the_same_predicate_holds_alike(p: Predicate, q: Predicate)
    ensures
        p.same_as(p),
        p.same_as(q) ==> forall|env: spec_fn(Atom) -> int| #[trigger] p.holds(env) <==> q.holds(env),
        p.same_as(q) ==> forall|env: spec_fn(Atom) -> Option<i64>| #[trigger]
            p.eval_spec(env) == q.eval_spec(env),
        p.same_as(q) <==> p.subject().terms() == q.subject().terms() && p.subject().offset()
            == q.subject().offset() && (p is Zero <==> q is Zero) && (p is Nonzero <==> q is Nonzero)
            && (p is Positive <==> q is Positive) && (p is DivisibleBy ==> p->divisor
            == q->divisor),
        forall|v: int| p is Zero ==> (#[trigger] p.decides(v) <==> v == 0),
        forall|v: int| p is Nonzero ==> (#[trigger] p.decides(v) <==> v != 0),
        forall|v: int| p is Positive ==> (#[trigger] p.decides(v) <==> v > 0),
{
}

/// A well-formed term has its atoms in order, each once, with coefficients that are not
/// 0; a well-formed predicate has such a term, and a divisor from 1 on.
pub proof fn well_formed_terms_are_sorted(t: Term, p: Predicate)
    ensures
        t.wf() <==> (forall|i: int, j: int|
            0 <= i < j < t.terms().len() ==> (#[trigger] t.terms()[i]).0.before(
                (#[trigger] t.terms()[j]).0,
            )) && forall|i: int| 0 <= i < t.terms().len() ==> (#[trigger] t.terms()[i]).1 != 0,
        p.wf() <==> p.subject().wf() && (p is DivisibleBy ==> p->divisor >= 1),
{
}

/// A combination has the combined constant and coefficients; it overflows exactly when
/// one of these leaves `i64`.
pub proof fn combinations_are_taken_by_coefficient(t: Term, p: int, a: Term, q: int, b: Term)
    ensures
        t.combines(p, a, q, b) <==> t.offset() == p * a.offset() + q * b.offset() && forall|x: Atom|
            t.coeff(x) == p * #[trigger] a.coeff(x) + q * b.coeff(x),
        Term::overflows(p, a, q, b) <==> !(i64::MIN <= p * a.offset() + q * b.offset()
            <= i64::MAX) || exists|x: Atom|
            !(i64::MIN <= p * #[trigger] a.coeff(x) + q * b.coeff(x) <= i64::MAX),
{
    if forall|x: Atom| t.coeff(x) == p * #[trigger] a.coeff(x) + q * b.coeff(x) {
        assert forall|x: Atom| #[trigger] t.coeff(x) == p * a.coeff(x) + q * b.coeff(x) by {
            assert(t.coeff(x) == p * a.coeff(x) + q * b.coeff(x));
        }
    }
    if Term::overflows(p, a, q, b) && fits(p * a.offset() + q * b.offset()) {
        let x = choose|x: Atom| !fits(p * #[trigger] a.coeff(x) + q * b.coeff(x));
        assert(!(i64::MIN <= p * a.coeff(x) + q * b.coeff(x) <= i64::MAX));
    }
    if exists|x: Atom| !(i64::MIN <= p * #[trigger] a.coeff(x) + q * b.coeff(x) <= i64::MAX) {
        let x = choose|x: Atom|
            !(i64::MIN <= p * #[trigger] a.coeff(x) + q * b.coeff(x) <= i64::MAX);
        assert(!fits(p * a.coeff(x) + q * b.coeff(x)));
    }
}

/// An evaluation asks the resolver for the first atom, and one that succeeds for every
/// atom; it uses what the resolver answered.
pub proof fn an_evaluation_asks_for_every_atom<F: Fn(&Atom) -> Option<i64>>(
    resolve: F,
    t: Term,
    env: spec_fn(Atom) -> Option<i64>,
    i: int,
)
    requires
        asked_of(resolve, t.terms(), t.offset() as i64, env),
        0 <= i < t.terms().len(),
        t.eval_spec(env) is Some || i == 0,
    ensures
        resolve.ensures((&t.terms()[i].0,), env(t.terms()[i].0)),
{
    let s = t.terms();
    let start = t.offset() as i64;
    if t.eval_spec(env) is Some {
        lemma_prefix_known(s, i, s.len() as int, start, env);
    }
    assert(eval_prefix(s, i, start, env) is Some);
}

proof fn lemma_prefix_known(
    s: Seq<(Atom, i64)>,
    m: int,
    n: int,
    start: i64,
    env: spec_fn(Atom) -> Option<i64>,
)
    requires
        0 <= m <= n,
        eval_prefix(s, n, start, env) is Some,
    ensures
        eval_prefix(s, m, start, env) is Some,
    decreases n,
{
    if m < n {
        lemma_prefix_known(s, m, n - 1, start, env);
    }
}

} // verus!
