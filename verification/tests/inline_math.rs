use grimoire::inline_math::{normalize_indexed_symbols, normalize_inline_math};

#[test]
fn normalizes_common_docling_inline_math_without_rewriting_prose() {
    assert_eq!(
        normalize_inline_math(
            "If ( a n ) lies in [ c, d ], then ( a n k ) converges; keep ( f g ) and ( i i )."
        ),
        "If (aₙ) lies in [c, d], then (aₙₖ) converges; keep (f g) and (i i)."
    );
}

#[test]
fn normalizes_inline_indices_absolute_values_sets_and_intervals() {
    assert_eq!(
        normalize_inline_math(
            "Proof. Let ( a n ) satisfy | a n | ≤ M for n ∈ N . Use [ -M,M ], I 1 , a n 1 ∈ I 1 , and I k -1."
        ),
        "Proof. Let (aₙ) satisfy |aₙ| ≤ M for n ∈ ℕ. Use [-M, M], I₁, aₙ₁ ∈ I₁, and Iₖ₋₁."
    );
}

#[test]
fn normalizes_bolzano_weierstrass_proof_inline_math() {
    assert_eq!(
        normalize_inline_math(
            "Proof. Let ( a n ) be bounded with | a n | ≤ M for all n ∈ N . Bisect [ -M,M ] into [ -M, 0] and [0 , M ]. Label the interval I 1 . Then a n 1 ∈ I 1 ."
        ),
        "Proof. Let (aₙ) be bounded with |aₙ| ≤ M for all n ∈ ℕ. Bisect [-M, M] into [-M, 0] and [0, M]. Label the interval I₁. Then aₙ₁ ∈ I₁."
    );
}

#[test]
fn leaves_ambiguous_powers_and_enumerations_alone() {
    assert_eq!(
        normalize_inline_math("Keep ( i v ), 1-1, and x 2 -1 unchanged."),
        "Keep (i v), 1-1, and x 2 -1 unchanged."
    );
}

#[test]
fn indexed_symbols_take_subscripts() {
    assert_eq!(normalize_indexed_symbols("a n and x 1 2"), "aₙ and x₁₂");
    assert_eq!(normalize_indexed_symbols("b q"), "b q");
    assert_eq!(normalize_indexed_symbols("plain prose"), "plain prose");
}

#[test]
fn number_sets_and_bars() {
    assert_eq!(normalize_inline_math("x ∈ R and | y |"), "x ∈ ℝ and |y|");
    assert_eq!(normalize_inline_math("RN stays"), "RN stays");
}
