use filtro::{
    Filter, FilterFactory, FilterParams, FilterRegistry, FilterRequest, FiltroError, ParamSpec, Rgba8,
};

#[test]
fn parse_identifiant_seul() {
    let request = FilterRequest::parse("jaune").unwrap();
    assert_eq!(request.id, "jaune");
    assert!(request.params.is_empty());
}

#[test]
fn parse_parametres() {
    let request = FilterRequest::parse("jaune:niveau=200,couleur=fefe01").unwrap();
    assert_eq!(request.params.u8("niveau", 180).unwrap(), 200);
    assert_eq!(
        request.params.color("couleur", Rgba8::WHITE()).unwrap(),
        Rgba8::new(254, 254, 1, 255)
    );
}

#[test]
fn valeurs_par_defaut() {
    let params = FilterParams::new("test");
    assert_eq!(params.u8("niveau", 180).unwrap(), 180);
    assert!(!params.bool("inverse", false).unwrap());
    assert_eq!(params.text("mode", "canaux"), "canaux");
}

#[test]
fn conversions_invalides() {
    let request = FilterRequest::parse("test:niveau=300,actif=peut-etre").unwrap();
    assert!(request.params.u8("niveau", 0).is_err());
    assert!(request.params.bool("actif", false).is_err());
}

#[test]
fn parse_refuse_les_expressions_malformees() {
    assert!(FilterRequest::parse("").is_err());
    assert!(FilterRequest::parse("jaune:niveau").is_err());
}

#[test]
fn parametre_inconnu_signale() {
    let request = FilterRequest::parse("jaune:nivo=200").unwrap();
    let specs = [ParamSpec { name: "niveau", default: "180", help: "seuil" }];
    assert!(request.params.check(&specs).is_err());
}

// --- Further cases -----------------------------------------------------------

#[test]
fn la_derniere_valeur_l_emporte() {
    let request = FilterRequest::parse(" jaune : niveau = 10 , niveau=20 ,, ").unwrap();
    assert_eq!(request.id, "jaune");
    assert_eq!(request.params.raw("niveau"), Some("20"));
    assert_eq!(request.params.u8("niveau", 0).unwrap(), 20);
}

#[test]
fn set_puis_lecture() {
    let mut params = FilterParams::new("f");
    params.set("b", "2");
    params.set("a", "1");
    params.set("b", "3");
    assert_eq!(params.raw("a"), Some("1"));
    assert_eq!(params.raw("b"), Some("3"));
    assert_eq!(params.raw("c"), None);
    assert!(!params.is_empty());
}

#[test]
fn conversions_valides() {
    let request = FilterRequest::parse("t:n=4000000000,b=Oui,c=#00ff0080").unwrap();
    assert_eq!(request.params.u32("n", 0).unwrap(), 4_000_000_000);
    assert!(request.params.bool("b", false).unwrap());
    assert_eq!(request.params.color("c", Rgba8::BLACK()).unwrap(), Rgba8::new(0, 255, 0, 128));
    assert!(FilterRequest::parse("t:n=4294967296").unwrap().params.u32("n", 0).is_err());
}

#[test]
fn messages_des_erreurs_de_parametres() {
    let request = FilterRequest::parse("test:niveau=300,actif=Peut").unwrap();
    match request.params.u8("niveau", 0) {
        Err(FiltroError::InvalidParameter { filter, name, reason }) => {
            assert_eq!(filter, "test");
            assert_eq!(name, "niveau");
            assert_eq!(reason, "« 300 » n'est pas un entier entre 0 et 255");
        }
        other => panic!("erreur attendue, obtenu {other:?}"),
    }
    match request.params.bool("actif", false) {
        Err(FiltroError::InvalidParameter { reason, .. }) => {
            assert_eq!(reason, "« peut » n'est pas un booléen")
        }
        other => panic!("erreur attendue, obtenu {other:?}"),
    }
    let specs = [
        ParamSpec { name: "niveau", default: "180", help: "seuil" },
        ParamSpec { name: "mode", default: "canaux", help: "mode" },
    ];
    match FilterRequest::parse("jaune:nivo=1").unwrap().params.check(&specs) {
        Err(FiltroError::InvalidParameter { name, reason, .. }) => {
            assert_eq!(name, "nivo");
            assert_eq!(reason, "paramètres acceptés : niveau, mode");
        }
        other => panic!("erreur attendue, obtenu {other:?}"),
    }
}

#[test]
fn messages_des_expressions_malformees() {
    match FilterRequest::parse("  :x=1") {
        Err(FiltroError::Config(m)) => {
            assert_eq!(m, "expression de filtre invalide : « :x=1 »")
        }
        other => panic!("erreur attendue, obtenu {other:?}"),
    }
    match FilterRequest::parse("jaune:niveau") {
        Err(FiltroError::Config(m)) => {
            assert_eq!(m, "paramètre « niveau » mal formé (attendu clé=valeur)")
        }
        other => panic!("erreur attendue, obtenu {other:?}"),
    }
}

#[test]
fn registre_refuse_un_filtre_inconnu() {
    let mut registry = FilterRegistry::new();
    filtro::filters::register_all(&mut registry).unwrap();
    match registry.build(&FilterRequest::parse("bleu").unwrap()) {
        Err(FiltroError::UnknownFilter { name, available }) => {
            assert_eq!(name, "bleu");
            assert_eq!(available, "jaune, noir-blanc, rouge, vert");
        }
        Err(other) => panic!("erreur inattendue {other:?}"),
        Ok(_) => panic!("erreur attendue"),
    }
    assert!(registry.build(&FilterRequest::parse("jaune:nivo=1").unwrap()).is_err());
    assert!(registry.get("bleu").is_none());
}

#[test]
fn registre_refuse_un_identifiant_mal_forme() {
    struct Mauvais;
    impl FilterFactory for Mauvais {
        fn id(&self) -> &'static str {
            "a b"
        }
        fn description(&self) -> &'static str {
            "mal nommé"
        }
        fn parameters(&self) -> &'static [ParamSpec] {
            &[]
        }
        fn build(&self, _params: &FilterParams) -> Result<Box<dyn Filter>, FiltroError> {
            Err(FiltroError::Config("jamais".to_string()))
        }
    }
    let mut registry = FilterRegistry::new();
    match registry.register(Mauvais) {
        Err(FiltroError::Config(m)) => assert_eq!(m, "identifiant de filtre invalide : « a b »"),
        other => panic!("erreur attendue, obtenu {other:?}"),
    }
    assert!(registry.is_empty());
}

#[test]
fn chaine_construite_dans_l_ordre() {
    let mut registry = FilterRegistry::new();
    filtro::filters::register_all(&mut registry).unwrap();
    let requests = [
        FilterRequest::parse("rouge").unwrap(),
        FilterRequest::parse("noir-blanc").unwrap(),
    ];
    let chain = registry.build_chain(&requests).unwrap();
    assert_eq!(chain.ids(), vec!["rouge", "noir-blanc"]);
}

#[test]
fn registre_refuse_un_identifiant_en_majuscules() {
    struct Majuscule;
    impl FilterFactory for Majuscule {
        fn id(&self) -> &'static str {
            "Jaune"
        }
        fn description(&self) -> &'static str {
            "mal nommé"
        }
        fn parameters(&self) -> &'static [ParamSpec] {
            &[]
        }
        fn build(&self, _params: &FilterParams) -> Result<Box<dyn Filter>, FiltroError> {
            Err(FiltroError::Config("jamais".to_string()))
        }
    }
    let mut registry = FilterRegistry::new();
    match registry.register(Majuscule) {
        Err(FiltroError::Config(m)) => assert_eq!(m, "identifiant de filtre invalide : « Jaune »"),
        other => panic!("erreur attendue, obtenu {other:?}"),
    }
    assert!(registry.is_empty());
}

#[test]
fn set_s_enchaine() {
    let mut params = FilterParams::new("jaune");
    params.set("niveau", "200").set("couleur", "fefe01").set("niveau", "210");
    assert_eq!(params.raw("niveau"), Some("210"));
    assert_eq!(params.raw("couleur"), Some("fefe01"));
    assert!(!params.is_empty());
}

#[test]
fn le_plus_petit_parametre_inconnu_est_signale() {
    let specs = [ParamSpec { name: "niveau", default: "180", help: "seuil" }];
    let request = FilterRequest::parse("jaune:zeta=1,niveau=3,alpha=2").unwrap();
    match request.params.check(&specs) {
        Err(FiltroError::InvalidParameter { name, .. }) => assert_eq!(name, "alpha"),
        other => panic!("erreur attendue, obtenu {other:?}"),
    }
}
