use partons::engine::{verbosity, PdfEnum, PdfSetEnum};

#[test]
fn interface_available_pdf_sets() {
    let pdf_sets = PdfSetEnum::available();

    assert!(pdf_sets.iter().any(|pdf_set| pdf_set == "NOOP"));
}

#[test]
fn interface_debug_pdf_set() {
    let pdf_set = PdfSetEnum::new("NNPDF40_nnlo_as_01180").unwrap();

    assert_eq!(format!("{:?}", pdf_set), "Noop(NoopPdfSet)");
}

#[test]
fn set_verbosity() {
    partons::engine::set_verbosity(0);
    assert_eq!(verbosity(), 0);
}

#[test]
fn noop_backend_answers() {
    let pdf = PdfEnum::new("anything").unwrap();
    assert!(matches!(pdf, PdfEnum::Noop(_)));
    let set = match PdfSetEnum::new("anything").unwrap() {
        PdfSetEnum::Noop(s) => s,
    };
    assert_eq!(set.entry("Particle"), None);
    assert_eq!(set.error_type(), "");
    assert_eq!(set.pdfs().unwrap().len(), 1);
    partons::engine::set_verbosity(3);
    assert_eq!(verbosity(), 0);
}
