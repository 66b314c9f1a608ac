use filtro::{FilterChain, FilterRequirements};

#[test]
fn fusion_des_exigences() {
    let a = FilterRequirements { needs_alpha: true, max_dimension: Some(4096) };
    let b = FilterRequirements { needs_alpha: false, max_dimension: Some(2048) };
    assert_eq!(a.merge(b), FilterRequirements { needs_alpha: true, max_dimension: Some(2048) });
}

#[test]
fn chaine_vide() {
    let chain = FilterChain::empty();
    assert!(chain.is_empty());
    assert_eq!(chain.requirements(), FilterRequirements::default());
}

// --- Further cases -----------------------------------------------------------

#[test]
fn la_fusion_est_commutative_et_neutre() {
    let a = FilterRequirements { needs_alpha: false, max_dimension: Some(300) };
    let b = FilterRequirements { needs_alpha: true, max_dimension: None };
    assert_eq!(a.merge(b), b.merge(a));
    assert_eq!(a.merge(b), FilterRequirements { needs_alpha: true, max_dimension: Some(300) });
    assert_eq!(a.merge(FilterRequirements::default()), a);
    assert_eq!(a.merge(a), a);
}

#[test]
fn chaine_vide_sans_identifiant() {
    let chain = FilterChain::new(Vec::new());
    assert_eq!(chain.len(), 0);
    assert!(chain.ids().is_empty());
}
