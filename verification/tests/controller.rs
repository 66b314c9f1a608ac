use std::path::PathBuf;

use filtro::controller::{parse_formats, parse_sizes, parse_requests, plan, register_filters, Cli, Command};
use filtro::{FilterRegistry, FiltroError, OutputFormat, SizeVariant};

fn cli() -> Cli {
    Cli {
        input: Some(PathBuf::from("photo.jpg")),
        filters: Vec::new(),
        formats: "png".to_string(),
        sizes: Vec::new(),
        out: PathBuf::from("sortie"),
        quality: 85,
        max_dimension: None,
        list_filters: false,
    }
}

fn registry() -> FilterRegistry {
    let mut registry = FilterRegistry::new();
    register_filters(&mut registry).unwrap();
    registry
}

#[test]
fn liste_de_formats() {
    assert_eq!(
        parse_formats("png, JPEG,,webp ,").unwrap(),
        vec![OutputFormat::Png, OutputFormat::Jpeg, OutputFormat::WebP]
    );
    match parse_formats(" , ,") {
        Err(FiltroError::Config(m)) => assert_eq!(m, "la liste de formats est vide"),
        other => panic!("erreur attendue, obtenu {other:?}"),
    }
    match parse_formats("png,gif,xyz") {
        Err(FiltroError::UnknownFormat(s)) => assert_eq!(s, "gif"),
        other => panic!("erreur attendue, obtenu {other:?}"),
    }
}

#[test]
fn liste_de_declinaisons() {
    let sizes = parse_sizes(&["vignette:256".to_string(), "web:1200".to_string()]).unwrap();
    assert_eq!(
        sizes,
        vec![
            SizeVariant::Original,
            SizeVariant::Bounded { label: "vignette".to_string(), max_side: 256 },
            SizeVariant::Bounded { label: "web".to_string(), max_side: 1200 },
        ]
    );
    assert_eq!(parse_sizes(&[]).unwrap(), vec![SizeVariant::Original]);
    match parse_sizes(&["ok:1".to_string(), "web:0".to_string(), "x".to_string()]) {
        Err(FiltroError::Config(m)) => {
            assert_eq!(m, "la taille d'une déclinaison doit être supérieure à zéro")
        }
        other => panic!("erreur attendue, obtenu {other:?}"),
    }
}

#[test]
fn expressions_de_filtres() {
    let requests = parse_requests(&["jaune".to_string(), "noir-blanc:niveau=3".to_string()]).unwrap();
    assert_eq!(requests.len(), 2);
    assert_eq!(requests[1].params.u8("niveau", 0).unwrap(), 3);
    match parse_requests(&["jaune".to_string(), "vert:x".to_string(), "".to_string()]) {
        Err(FiltroError::Config(m)) => assert_eq!(m, "paramètre « x » mal formé (attendu clé=valeur)"),
        other => panic!("erreur attendue, obtenu {other:?}"),
    }
}

#[test]
fn lister_les_filtres_passe_avant_tout() {
    let mut c = cli();
    c.list_filters = true;
    c.input = None;
    c.formats = "gif".to_string();
    assert!(matches!(plan(c, &registry()), Ok(Command::ListFilters)));
}

#[test]
fn sans_image_la_commande_echoue() {
    let mut c = cli();
    c.input = None;
    match plan(c, &registry()) {
        Err(FiltroError::Config(m)) => assert_eq!(m, "aucune image fournie"),
        Err(other) => panic!("erreur inattendue {other:?}"),
        Ok(_) => panic!("erreur attendue"),
    }
}

#[test]
fn plan_complet() {
    let mut c = cli();
    c.filters = vec!["rouge".to_string(), "noir-blanc:mode=luminance".to_string()];
    c.formats = "png,jpeg".to_string();
    c.sizes = vec!["vignette:64".to_string()];
    c.quality = 90;
    c.max_dimension = Some(800);
    match plan(c, &registry()) {
        Ok(Command::Process { input, chain, pipeline, out }) => {
            assert_eq!(input, PathBuf::from("photo.jpg"));
            assert_eq!(out, PathBuf::from("sortie"));
            assert_eq!(chain.ids(), vec!["rouge", "noir-blanc"]);
            assert_eq!(pipeline.formatter.formats(), &[OutputFormat::Png, OutputFormat::Jpeg]);
            assert_eq!(pipeline.formatter.sizes().len(), 2);
            assert_eq!(pipeline.constructor.policy().max_dimension, Some(800));
        }
        Err(e) => panic!("plan refusé : {e:?}"),
        Ok(Command::ListFilters) => panic!("traitement attendu"),
    }
}

#[test]
fn erreurs_du_plan_dans_l_ordre() {
    let mut c = cli();
    c.filters = vec!["bleu".to_string()];
    c.formats = "gif".to_string();
    assert!(matches!(plan(c, &registry()), Err(FiltroError::UnknownFilter { .. })));

    let mut c = cli();
    c.formats = "gif".to_string();
    c.quality = 0;
    assert!(matches!(plan(c, &registry()), Err(FiltroError::UnknownFormat(_))));

    let mut c = cli();
    c.sizes = vec!["web".to_string()];
    c.quality = 0;
    assert!(matches!(plan(c, &registry()), Err(FiltroError::Config(_))));

    let mut c = cli();
    c.quality = 0;
    match plan(c, &registry()) {
        Err(FiltroError::Config(m)) => assert_eq!(m, "qualité 0 hors de l'intervalle 1–100"),
        Err(other) => panic!("erreur inattendue {other:?}"),
        Ok(_) => panic!("erreur attendue"),
    }
}

#[test]
fn plan_refuse_un_parametre_inconnu() {
    let mut c = cli();
    c.filters = vec!["rouge".to_string(), "jaune:inconnu=1".to_string()];
    match plan(c, &registry()) {
        Err(FiltroError::InvalidParameter { filter, name, reason }) => {
            assert_eq!(filter, "jaune");
            assert_eq!(name, "inconnu");
            assert_eq!(reason, "paramètres acceptés : niveau, couleur, permutation");
        }
        Err(other) => panic!("erreur inattendue {other:?}"),
        Ok(_) => panic!("erreur attendue"),
    }
}
