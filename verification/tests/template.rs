use strings_to_arb::config::ArbFileNameTemplate;

#[test]
fn template_accepts_suffix() {
    let t = ArbFileNameTemplate::new("app_en.arb").unwrap();
    assert_eq!(t.get_file_name("fr"), "app_fr.arb");
    assert_eq!(t.get_file_name("en"), "app_en.arb");
    assert_eq!(t.get_file_name("pt-rBR"), "app_pt-rBR.arb");
}

#[test]
fn template_rejects_other_names() {
    assert!(ArbFileNameTemplate::new("app.arb").is_err());
    assert!(ArbFileNameTemplate::new("x").is_err());
    assert!(ArbFileNameTemplate::new("").is_err());
    assert!(ArbFileNameTemplate::new("app_en.arb.bak").is_err());
}

#[test]
fn template_bare_suffix() {
    let t = ArbFileNameTemplate::new("_en.arb").unwrap();
    assert_eq!(t.get_file_name("de"), "_de.arb");
}
