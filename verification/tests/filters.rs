use filtro::filters::register_all;
use filtro::{FilterFactory, FilterParams, FilterRegistry};

#[test]
fn tous_les_filtres_s_enregistrent() {
    let mut registry = FilterRegistry::new();
    register_all(&mut registry).unwrap();
    assert_eq!(registry.len(), 4);
    for id in ["jaune", "vert", "rouge", "noir-blanc"] {
        assert!(registry.get(id).is_some(), "filtre « {id} » absent");
    }
}

#[test]
fn chaque_filtre_se_construit_sans_parametre() {
    let mut registry = FilterRegistry::new();
    register_all(&mut registry).unwrap();
    for factory in registry.factories() {
        let params = FilterParams::new(factory.id());
        assert!(
            factory.build(&params).is_ok(),
            "le filtre « {} » exige un paramètre",
            factory.id()
        );
    }
}

// --- Further cases -----------------------------------------------------------

#[test]
fn enregistrer_deux_fois_echoue_sur_jaune() {
    let mut registry = FilterRegistry::new();
    register_all(&mut registry).unwrap();
    match register_all(&mut registry) {
        Err(filtro::FiltroError::Config(m)) => {
            assert_eq!(m, "deux filtres portent l'identifiant « jaune »")
        }
        other => panic!("erreur attendue, obtenu {other:?}"),
    }
    assert_eq!(registry.len(), 4);
}

#[test]
fn les_fabriques_sont_triees_par_identifiant() {
    let mut registry = FilterRegistry::new();
    register_all(&mut registry).unwrap();
    let ids: Vec<&str> = registry.factories().iter().map(|f| f.id()).collect();
    assert_eq!(ids, vec!["jaune", "noir-blanc", "rouge", "vert"]);
}

#[test]
fn descriptions_des_filtres_livres() {
    let mut registry = FilterRegistry::new();
    register_all(&mut registry).unwrap();
    assert_eq!(
        registry.get("jaune").unwrap().description(),
        "Remplace le blanc par du jaune et échange rouge et bleu"
    );
    assert_eq!(
        registry.get("noir-blanc").unwrap().description(),
        "Seuillage binaire : chaque pixel devient clair ou sombre"
    );
}
