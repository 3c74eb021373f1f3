use cutile::predicate::{Atom, LaunchCheck, Predicate, Stage, Term};

fn dim(param: usize, axis: usize) -> Atom {
    Atom::Dim { param, axis }
}

// ── Normal form: canonical by construction, confluent ──────────────────

#[test]
fn like_terms_combine_and_order_is_irrelevant() {
    let a = Term::atom(dim(0, 0));
    let b = Term::atom(dim(1, 0));
    // (a + b) and (b + a) reach the same normal form.
    assert_eq!(a.add(&b).unwrap(), b.add(&a).unwrap());
    // a + a == 2a.
    assert_eq!(a.add(&a).unwrap(), a.mul_const(2).unwrap());
}

#[test]
fn like_terms_cancel_to_drop_zero_coefficients() {
    let a = Term::atom(dim(0, 0));
    let zero = a.sub(&a).unwrap();
    assert_eq!(zero, Term::constant(0));
    assert!(zero.coeffs().is_empty());
}

#[test]
fn confluence_two_build_orders_agree() {
    let a = Term::atom(dim(0, 0));
    let b = Term::atom(dim(1, 1));
    // (2a + b) + 3   vs   (b + 3) + 2a
    let lhs = a
        .mul_const(2)
        .unwrap()
        .add(&b)
        .unwrap()
        .add(&Term::constant(3))
        .unwrap();
    let rhs = b
        .add(&Term::constant(3))
        .unwrap()
        .add(&a.mul_const(2).unwrap())
        .unwrap();
    assert_eq!(lhs, rhs);
}

#[test]
fn affine_consolidates_scale_var_offset() {
    let a = dim(0, 0);
    // 3 * a + 5 built two ways.
    assert_eq!(
        Term::affine(a, 3, 5),
        Term::atom(a)
            .mul_const(3)
            .unwrap()
            .add(&Term::constant(5))
            .unwrap()
    );
    // A zero scale folds to the constant.
    assert_eq!(Term::affine(a, 0, 7), Term::constant(7));
}

// ── Stage is the max over atoms ────────────────────────────────────────

#[test]
fn as_single_affine_projects_only_single_var_forms() {
    let a = dim(0, 0);
    // 3*a + 5 projects to (a, 3, 5).
    assert_eq!(Term::affine(a, 3, 5).as_single_affine(), Some((a, 3, 5)));
    // A constant (zero atoms) does not project.
    assert_eq!(Term::constant(7).as_single_affine(), None);
    // Two atoms do not project (richer than single-var affine).
    let two = Term::atom(dim(0, 0)).add(&Term::atom(dim(1, 0))).unwrap();
    assert_eq!(two.as_single_affine(), None);
}

#[test]
fn predicate_atoms_lists_every_operand() {
    let term = Term::atom(dim(0, 1))
        .add(&Term::atom(Atom::NumTileBlocks(0)))
        .unwrap();
    let pred = Predicate::divisible_by(term, 4).unwrap();
    let atoms: Vec<Atom> = pred.atoms();
    assert_eq!(atoms, vec![dim(0, 1), Atom::NumTileBlocks(0)]);
}

#[test]
fn stage_is_max_over_atoms() {
    assert_eq!(Term::constant(4).stage(), Stage::Jit);
    assert_eq!(Term::atom(dim(0, 0)).stage(), Stage::Launch);
    let mixed = Term::atom(dim(0, 0)).add(&Term::atom(Atom::Iv(7))).unwrap();
    assert_eq!(mixed.stage(), Stage::Device);
}

// ── Overflow bails (MLIR policy), never wraps ──────────────────────────

#[test]
fn overflow_bails_to_none() {
    let big = Term::constant(i64::MAX);
    assert!(big.add(&Term::constant(1)).is_none());
    assert!(Term::atom(dim(0, 0))
        .mul_const(2)
        .unwrap()
        .mul_const(i64::MAX)
        .is_none());
}

// ── Predicate canonicalization ─────────────────────────────────────────

#[test]
fn equality_is_symmetric_after_canonicalization() {
    let a = Term::atom(dim(0, 0));
    let b = Term::atom(dim(1, 0));
    // a == b and b == a produce the same canonical predicate.
    assert_eq!(
        Predicate::eq(&a, &b).unwrap(),
        Predicate::eq(&b, &a).unwrap()
    );
}

#[test]
fn nonzero_is_sign_invariant() {
    let a = Term::atom(dim(0, 0));
    let neg_a = a.neg().unwrap();
    assert_eq!(Predicate::nonzero(a), Predicate::nonzero(neg_a));
}

#[test]
fn divisibility_reduces_coefficients_mod_divisor() {
    let a = dim(0, 0);
    // 6a + 9  and  0a + 3 (== 3)  are both "divisible by 3": 6≡0, 9≡0 mod 3.
    let p1 = Predicate::divisible_by(Term::affine(a, 6, 9), 3).unwrap();
    // 6 ≡ 0 (mod 3) drops the atom; 9 ≡ 0 (mod 3): reduces to `0 % 3 == 0`.
    let expected = Predicate::divisible_by(Term::constant(0), 3).unwrap();
    assert_eq!(p1, expected);
    assert!(Predicate::divisible_by(Term::constant(0), 0).is_none());
}

// ── Evaluation (the launch / fold interpreter) ─────────────────────────

#[test]
fn eval_resolves_atoms_and_decides() {
    // extent(param 0, axis 0) = 128.
    let env = |atom: &Atom| match atom {
        Atom::Dim { param: 0, axis: 0 } => Some(128),
        _ => None,
    };
    let nonzero = Predicate::nonzero(Term::atom(dim(0, 0)));
    assert_eq!(nonzero.eval(&env), Some(true));

    let zero_env = |atom: &Atom| match atom {
        Atom::Dim { param: 0, axis: 0 } => Some(0),
        _ => None,
    };
    assert_eq!(nonzero.eval(&zero_env), Some(false));

    // Unresolved atom → cannot decide.
    let missing = Predicate::nonzero(Term::atom(dim(9, 9)));
    assert_eq!(missing.eval(&env), None);
}

// ── Special registers + Lt canonical inequality ───────────────────────

#[test]
fn special_register_stages() {
    // The tile-block id is a per-CTA runtime value (Device); the grid dim is
    // host-known before launch (Launch).
    assert_eq!(Atom::TileBlockId(0).stage(), Stage::Device);
    assert_eq!(Atom::NumTileBlocks(0).stage(), Stage::Launch);
    assert_eq!(Term::atom(Atom::TileBlockId(0)).stage(), Stage::Device);
    assert_eq!(Term::atom(Atom::NumTileBlocks(0)).stage(), Stage::Launch);
}

#[test]
fn lt_is_the_hardware_axiom_and_directional() {
    let id = Term::atom(Atom::TileBlockId(0));
    let n = Term::atom(Atom::NumTileBlocks(0));
    // The universal bound `TileBlockId(0) < NumTileBlocks(0)`.
    let bound = Predicate::lt(&id, &n).unwrap();
    // Directional: `a < b` differs from `b < a` (no sign canonicalization).
    assert_ne!(bound, Predicate::lt(&n, &id).unwrap());
    // Stage is Device (mixes a Device id with a Launch grid dim), so it can
    // only discharge at Jit via a matching assumption, never hoist.
    assert_eq!(bound.stage(), Stage::Device);
}

#[test]
fn lt_evaluates_strictly() {
    let env = |atom: &Atom| match atom {
        Atom::TileBlockId(0) => Some(3),
        Atom::NumTileBlocks(0) => Some(4),
        _ => None,
    };
    let lt = Predicate::lt(
        &Term::atom(Atom::TileBlockId(0)),
        &Term::atom(Atom::NumTileBlocks(0)),
    )
    .unwrap();
    assert_eq!(lt.eval(&env), Some(true)); // 3 < 4
    let eq_env = |atom: &Atom| match atom {
        Atom::TileBlockId(0) => Some(4),
        Atom::NumTileBlocks(0) => Some(4),
        _ => None,
    };
    assert_eq!(lt.eval(&eq_env), Some(false)); // 4 < 4 is false (strict)
}

#[test]
fn tile_count_evaluates_ceil_div_in_the_root_frame() {
    let ta = Term::atom(Atom::TileCount {
        param: 0,
        axis: 1,
        tile: 32,
    });
    let tb = Term::atom(Atom::TileCount {
        param: 1,
        axis: 0,
        tile: 32,
    });
    let le = Predicate::le(&ta, &tb).unwrap();
    assert_eq!(le.stage(), Stage::Launch);
    let env = |a_extent: i64, b_extent: i64| {
        move |atom: &Atom| match atom {
            Atom::TileCount {
                param: 0,
                axis: 1,
                tile: 32,
            } => Some((a_extent + 31) / 32),
            Atom::TileCount {
                param: 1,
                axis: 0,
                tile: 32,
            } => Some((b_extent + 31) / 32),
            _ => None,
        }
    };
    // The sub-tile band: shorter in elements, equal in tiles — admitted.
    assert_eq!(le.eval(&env(128, 100)), Some(true));
    // Genuinely fewer tiles — rejected.
    assert_eq!(le.eval(&env(128, 96)), Some(false));
    // Distinct tile sizes are distinct atoms, not the same quantity.
    assert_ne!(
        Term::atom(Atom::TileCount {
            param: 0,
            axis: 1,
            tile: 32
        }),
        Term::atom(Atom::TileCount {
            param: 0,
            axis: 1,
            tile: 16
        })
    );
}

#[test]
fn le_admits_equality_and_larger_and_rejects_smaller() {
    let a = Term::atom(Atom::Dim { param: 0, axis: 1 });
    let b = Term::atom(Atom::Dim { param: 1, axis: 0 });
    let le = Predicate::le(&a, &b).unwrap();
    let env = |x: i64, y: i64| {
        move |atom: &Atom| match atom {
            Atom::Dim { param: 0, axis: 1 } => Some(x),
            Atom::Dim { param: 1, axis: 0 } => Some(y),
            _ => None,
        }
    };
    assert_eq!(le.eval(&env(64, 64)), Some(true)); // equal: safe
    assert_eq!(le.eval(&env(64, 256)), Some(true)); // target larger: safe
    assert_eq!(le.eval(&env(128, 96)), Some(false)); // target short: reject
                                                     // Not the same claim as equality: eq rejects the larger target.
    let eq = Predicate::eq(&a, &b).unwrap();
    assert_eq!(eq.eval(&env(64, 256)), Some(false));
    // Self-comparison folds without an environment: `a <= a` is Positive(1).
    let refl = Predicate::le(&a, &a).unwrap();
    assert_eq!(refl.eval(&|_| None), Some(true));
}

#[test]
fn eval_divisibility() {
    let env = |atom: &Atom| match atom {
        Atom::Dim { param: 0, axis: 0 } => Some(256),
        _ => None,
    };
    let div = Predicate::divisible_by(Term::atom(dim(0, 0)), 64).unwrap();
    assert_eq!(div.eval(&env), Some(true));
    let div2 = Predicate::divisible_by(Term::atom(dim(0, 0)), 100).unwrap();
    assert_eq!(div2.eval(&env), Some(false));
}

// ── The algebra beyond one example ────────────────────────────────────────

#[test]
fn grouping_is_irrelevant() {
    let a = Term::affine(dim(0, 0), 2, 1);
    let b = Term::affine(Atom::Iv(3), -5, 4);
    let c = Term::affine(dim(0, 0), -2, 7);
    let left = a.add(&b).unwrap().add(&c).unwrap();
    let right = a.add(&b.add(&c).unwrap()).unwrap();
    assert_eq!(left, right);
    assert_eq!(left, Term::affine(Atom::Iv(3), -5, 12));
}

#[test]
fn negating_twice_gives_the_term_back() {
    let t = Term::affine(dim(2, 1), -3, 9);
    assert_eq!(t.neg().unwrap().neg().unwrap(), t);
    assert!(Term::constant(i64::MIN).neg().is_none());
    assert!(Term::affine(dim(0, 0), i64::MIN, 0).neg().is_none());
}

#[test]
fn subtraction_fails_where_the_negation_does() {
    // -1 - MIN fits, but -MIN does not.
    assert!(Term::constant(-1).sub(&Term::constant(i64::MIN)).is_none());
    assert!(Term::constant(0).sub(&Term::constant(1)).unwrap().as_constant() == Some(-1));
}

#[test]
fn a_zero_factor_gives_the_constant_zero() {
    let t = Term::affine(dim(0, 0), i64::MAX, i64::MAX);
    assert_eq!(t.mul_const(0).unwrap(), Term::constant(0));
    assert_eq!(Term::default(), Term::constant(0));
}

#[test]
fn atoms_are_listed_in_variant_then_field_order() {
    let mut t = Term::constant(0);
    let atoms = [
        Atom::TileCount { param: 0, axis: 0, tile: 8 },
        Atom::ViewExtent { param: 0, axis: 2 },
        Atom::NumTileBlocks(1),
        Atom::TileBlockId(0),
        Atom::Iv(9),
        dim(1, 0),
        dim(0, 5),
        Atom::TileCount { param: 0, axis: 0, tile: 4 },
    ];
    for a in atoms {
        t = t.add(&Term::atom(a)).unwrap();
    }
    let mut sorted = atoms.to_vec();
    sorted.sort();
    assert_eq!(t.atoms(), sorted);
    assert_eq!(t.coeffs().len(), 8);
}

#[test]
fn parts_of_a_term() {
    let t = Term::affine(dim(0, 0), 3, 5);
    assert_eq!(t.constant_part(), 5);
    assert_eq!(t.as_constant(), None);
    assert_eq!(Term::constant(-2).as_constant(), Some(-2));
    assert_eq!(t.coeffs(), &vec![(dim(0, 0), 3)]);
}

#[test]
fn evaluation_fails_on_overflow_and_on_the_first_unknown() {
    let t = Term::affine(dim(0, 0), 2, 0);
    assert_eq!(t.eval(&|_| Some(i64::MAX)), None);
    assert_eq!(Term::affine(dim(0, 0), 1, i64::MAX).eval(&|_| Some(1)), None);
    assert_eq!(t.eval(&|_| None), None);
    assert_eq!(t.eval(&|_| Some(21)), Some(42));
}

#[test]
fn negative_residues_are_euclidean() {
    let p = Predicate::divisible_by(Term::affine(dim(0, 0), -1, -3), 4).unwrap();
    // -1 and -3 reduce to 3 and 1.
    assert_eq!(p, Predicate::divisible_by(Term::affine(dim(0, 0), 3, 1), 4).unwrap());
    assert_eq!(p.eval(&|_| Some(1)), Some(true));
    assert_eq!(p.eval(&|_| Some(2)), Some(false));
    assert!(Predicate::divisible_by(Term::constant(1), -2).is_none());
}

#[test]
fn a_term_equals_itself_without_an_environment() {
    let a = Term::affine(dim(0, 0), 7, 1);
    assert_eq!(Predicate::eq(&a, &a).unwrap(), Predicate::Zero(Term::constant(0)));
    assert_eq!(Predicate::le(&a, &a).unwrap(), Predicate::Positive(Term::constant(1)));
    assert_eq!(Predicate::lt(&a, &a).unwrap().eval(&|_| None), Some(false));
    assert!(Predicate::le(&Term::constant(0), &Term::constant(i64::MAX)).is_none());
}

#[test]
fn a_launch_check_keeps_its_cause() {
    let check = LaunchCheck {
        predicate: Predicate::nonzero(Term::atom(dim(0, 0))),
        cause: "extent".to_string(),
    };
    let copy = check.clone();
    assert_eq!(copy, check);
}
