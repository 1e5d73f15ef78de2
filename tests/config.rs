use columnar_loader::runcfg::{config_label_text, Backend, Runcfg, TransformAmount};
use columnar_loader::sqldiff::Sqldiff;

#[test]
fn config_names_its_outputs() {
    let cfg = Runcfg::new(
        "/repo",
        TransformAmount::Many,
        Backend::PolarsOneBlockRusqlite,
        Some(100),
        false,
        true,
        "/cwd/data/l-100.csv".to_string(),
        "/cwd",
    );
    assert_eq!(cfg.destination(), "/cwd/out/plobrs-ma-100.sqlite");
    assert_eq!(cfg.filename(), "plob-ma.jv");
    assert_eq!(cfg.label(), "plobrs-ma-100");
    assert_eq!(cfg.backend(), Backend::PolarsOneBlockRusqlite);
    assert_eq!(cfg.transformations(), TransformAmount::Many);
    assert_eq!(cfg.n_lines(), Some(100));
}

#[test]
fn label_without_size_says_all() {
    assert_eq!(config_label_text(TransformAmount::Zero, Backend::Typescript, None), "ts-no-all");
    assert_eq!(config_label_text(TransformAmount::Few, Backend::Polars, Some(0)), "pl-so-0");
}

#[test]
fn backend_flags() {
    assert!(!Backend::Typescript.use_polars_flag());
    assert!(Backend::PolarsOneBlock.use_polars_flag());
    assert!(Backend::PolarsRusqlite.use_rusqlite_flag());
    assert!(!Backend::Polars.use_rusqlite_flag());
}

#[test]
fn diff_equality_ignores_unchanged() {
    let d = Sqldiff { changes: 0, inserts: 0, deletes: 0, unchanged: 7 };
    assert!(d.equal());
    assert!(Sqldiff::empty().equal());
    assert!(!Sqldiff { changes: 0, inserts: 1, deletes: 0, unchanged: 0 }.equal());
}

#[test]
fn diff_summary_parses() {
    assert_eq!(
        Sqldiff::parse("main: 1 changes, 2 inserts, 3 deletes, 40 unchanged\n"),
        Some(Sqldiff { changes: 1, inserts: 2, deletes: 3, unchanged: 40 })
    );
    assert_eq!(Sqldiff::parse("  \n"), Some(Sqldiff::empty()));
    assert_eq!(Sqldiff::parse(""), Some(Sqldiff::empty()));
}

#[test]
fn diff_summary_rejects_other_shapes() {
    assert_eq!(Sqldiff::parse("main 1 changes, 2 inserts, 3 deletes, 4 unchanged"), None);
    assert_eq!(Sqldiff::parse("main: 1 changes, 2 inserts, 3 deletes"), None);
    assert_eq!(Sqldiff::parse("main: 1 changes, 2 inserts, 3 deletes, 4 unchanged, 5 more"), None);
    assert_eq!(Sqldiff::parse("main: x changes, 2 inserts, 3 deletes, 4 unchanged"), None);
    assert_eq!(Sqldiff::parse("main: 1x changes, 2 inserts, 3 deletes, 4 unchanged"), None);
    assert_eq!(
        Sqldiff::parse("main: 99999999999999999999999 changes, 2 inserts, 3 deletes, 4 unchanged"),
        None
    );
}

#[test]
fn diff_text_lists_counts() {
    let d = Sqldiff { changes: 1, inserts: 20, deletes: 0, unchanged: 305 };
    assert_eq!(d.to_text(), "[1~ 20+ 0- 305=]");
}
